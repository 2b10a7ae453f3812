//! The size-bounded history of previously entered variable values: an
//! append-only log, deduplicated structurally, evicted oldest-first once
//! it outgrows its configured maximum.

use vstd::prelude::*;

use crate::text::str_equal;

verus! {

/// One remembered answer: which variable it bound, to what value, under
/// which environment.
pub struct HistoryItem {
    pub name: String,
    pub value: String,
    pub env_name: String,
}

/// Structural equality of two history entries: all three fields.
pub open spec fn item_eq(a: HistoryItem, b: HistoryItem) -> bool {
    a.name@ == b.name@ && a.value@ == b.value@ && a.env_name@ == b.env_name@
}

/// Does an entry structurally equal to `item` occur in `entries`?
pub open spec fn has_item(entries: Seq<HistoryItem>, item: HistoryItem) -> bool {
    exists|k: int| 0 <= k < entries.len() && item_eq(#[trigger] entries[k], item)
}

/// No two entries of `entries` are structurally equal.
pub open spec fn no_duplicates(entries: Seq<HistoryItem>) -> bool {
    forall|k1: int, k2: int|
        0 <= k1 < k2 < entries.len() ==> !item_eq(#[trigger] entries[k1], #[trigger] entries[k2])
}

impl HistoryItem {
    pub fn new(name: &str, value: &str, env_name: &str) -> (item: HistoryItem)
        ensures
            item.name@ == name@,
            item.value@ == value@,
            item.env_name@ == env_name@,
    {
        HistoryItem {
            name: name.to_owned(),
            value: value.to_owned(),
            env_name: env_name.to_owned(),
        }
    }
}

fn items_equal(a: &HistoryItem, b: &HistoryItem) -> (r: bool)
    ensures
        r == item_eq(*a, *b),
{
    str_equal(a.name.as_str(), b.name.as_str()) && str_equal(a.value.as_str(), b.value.as_str())
        && str_equal(a.env_name.as_str(), b.env_name.as_str())
}

/// The in-memory history for one prompt session: the entries loaded from
/// the log plus those recorded during the session, and the configured
/// maximum kept across sessions.
pub struct HistoryStore {
    pub entries: Vec<HistoryItem>,
    pub max_items: usize,
}

impl HistoryStore {
    /// A store over the entries loaded from the log.
    pub fn new(entries: Vec<HistoryItem>, max_items: usize) -> (store: HistoryStore)
        ensures
            store.entries == entries,
            store.max_items == max_items,
    {
        HistoryStore { entries, max_items }
    }

    /// Is an entry structurally equal to `item` already stored?
    pub fn holds(&self, item: &HistoryItem) -> (r: bool)
        ensures
            r == has_item(self.entries@, *item),
    {
        let n = self.entries.len();
        let mut k: usize = 0;
        while k < n
            invariant
                k <= n,
                n == self.entries@.len(),
                forall|j: int| 0 <= j < k ==> !item_eq(#[trigger] self.entries@[j], *item),
            decreases n - k,
        {
            if items_equal(&self.entries[k], item) {
                return true;
            }
            k += 1;
        }
        false
    }

    /// Record one freshly entered answer: append it unless a structurally
    /// equal entry is already stored, and report whether it was appended
    /// (the caller then also appends it to the log on disk). Recording
    /// never creates a duplicate: a store without duplicates stays
    /// without them.
    pub fn record(&mut self, item: HistoryItem) -> (appended: bool)
        ensures
            final(self).max_items == old(self).max_items,
            appended == !has_item(old(self).entries@, item),
            appended ==> final(self).entries@ == old(self).entries@.push(item),
            !appended ==> final(self).entries@ == old(self).entries@,
            no_duplicates(old(self).entries@) ==> no_duplicates(final(self).entries@),
    {
        if self.holds(&item) {
            return false;
        }
        let ghost pre = self.entries@;
        proof {
            if no_duplicates(pre) {
                assert forall|k1: int, k2: int|
                    0 <= k1 < k2 < pre.push(item).len() implies !item_eq(
                    #[trigger] pre.push(item)[k1],
                    #[trigger] pre.push(item)[k2],
                ) by {
                    if k2 == pre.len() {
                        assert(pre.push(item)[k1] == pre[k1]);
                        if item_eq(pre[k1], item) {
                            assert(has_item(pre, item));
                        }
                    }
                }
            }
        }
        self.entries.push(item);
        true
    }

    /// Evict down to the configured maximum: keep exactly the most
    /// recently added entries, dropping the oldest first. Reports whether
    /// anything was dropped (the caller then rewrites the log from the
    /// retained entries). Afterwards the count is the smaller of the old
    /// count and the maximum, and the retained entries are exactly the
    /// trailing ones, in order.
    pub fn evict(&mut self) -> (evicted: bool)
        ensures
            final(self).max_items == old(self).max_items,
            evicted == (old(self).entries@.len() > old(self).max_items),
            final(self).entries@.len() == vstd::math::min(
                old(self).entries@.len() as int,
                old(self).max_items as int,
            ),
            final(self).entries@ == old(self).entries@.skip(
                old(self).entries@.len() - final(self).entries@.len(),
            ),
    {
        let n = self.entries.len();
        if n <= self.max_items {
            proof {
                assert(self.entries@.skip(0) =~= self.entries@);
            }
            return false;
        }
        let excess = n - self.max_items;
        let mut kept: Vec<HistoryItem> = Vec::new();
        let mut k: usize = excess;
        while k < n
            invariant
                excess <= k <= n,
                n == self.entries@.len(),
                excess == n - self.max_items,
                kept@.len() == k - excess,
                forall|j: int| 0 <= j < kept@.len() ==> #[trigger] kept@[j] == self.entries@[excess + j],
            decreases n - k,
        {
            let item = HistoryItem {
                name: self.entries[k].name.clone(),
                value: self.entries[k].value.clone(),
                env_name: self.entries[k].env_name.clone(),
            };
            proof {
                assert(item == self.entries@[k as int]);
            }
            kept.push(item);
            k += 1;
        }
        proof {
            assert(kept@ =~= self.entries@.skip(excess as int));
        }
        self.entries = kept;
        true
    }

    /// The values previously entered for this variable under this
    /// environment, oldest first.
    pub fn values_for(&self, name: &str, env_name: &str) -> (res: Vec<String>)
        ensures
            res.deep_view() == matching_values(self.entries@, name@, env_name@),
    {
        let n = self.entries.len();
        let mut res: Vec<String> = Vec::new();
        let mut k: usize = 0;
        proof {
            assert(self.entries@.take(0) =~= Seq::<HistoryItem>::empty());
            assert(res.deep_view() =~= matching_values(self.entries@.take(0), name@, env_name@));
        }
        while k < n
            invariant
                k <= n,
                n == self.entries@.len(),
                res.deep_view() == matching_values(self.entries@.take(k as int), name@, env_name@),
            decreases n - k,
        {
            let ghost pre = res.deep_view();
            let entry = &self.entries[k];
            proof {
                assert(self.entries@.take(k as int + 1).drop_last() =~= self.entries@.take(
                    k as int,
                ));
                assert(self.entries@.take(k as int + 1).last() == self.entries@[k as int]);
            }
            if str_equal(entry.name.as_str(), name) && str_equal(entry.env_name.as_str(), env_name) {
                let v = entry.value.clone();
                res.push(v);
                proof {
                    assert(res.deep_view() =~= pre.push(self.entries@[k as int].value@));
                }
            }
            k += 1;
        }
        proof {
            assert(self.entries@.take(n as int) =~= self.entries@);
        }
        res
    }
}

/// The values of the entries for this variable and environment, in
/// insertion order.
pub open spec fn matching_values(
    entries: Seq<HistoryItem>,
    name: Seq<char>,
    env_name: Seq<char>,
) -> Seq<Seq<char>>
    decreases entries.len(),
{
    if entries.len() == 0 {
        Seq::empty()
    } else {
        let rest = matching_values(entries.drop_last(), name, env_name);
        if entries.last().name@ == name && entries.last().env_name@ == env_name {
            rest.push(entries.last().value@)
        } else {
            rest
        }
    }
}

} // verus!
