//! The catalog of discoverable request definitions: one entry per file,
//! sorted by path at construction and only annotated afterwards, as the
//! background parser fills in each entry's result exactly once.

use vstd::prelude::*;

use crate::keyvalue::KeyValue;
use crate::request_definition::ParseError;
use crate::request_definition::RequestDefinition;
use crate::templating::apply_vars;
use crate::templating::substitute;
use crate::text::lemma_lex_lt_total;
use crate::text::lemma_lex_lt_transitive;
use crate::text::lex_lt;
use crate::text::str_less;

verus! {

/// One discoverable request definition: its path, the length of the
/// common directory prefix trimmed for display, and its parse result once
/// the background loader has reached it.
pub struct Choice {
    pub path: String,
    pub prefix_length: usize,
    pub request_definition: Option<Result<RequestDefinition, ParseError>>,
}

impl Choice {
    /// A freshly discovered entry: not parsed yet.
    pub fn new(path: String, prefix_length: usize) -> (c: Choice)
        ensures
            c.path == path,
            c.prefix_length == prefix_length,
            c.request_definition is None,
    {
        Choice { path, prefix_length, request_definition: None }
    }

    /// The path as displayed and searched: the common directory prefix
    /// and the separator after it trimmed from the front, the
    /// five-character file extension trimmed from the end.
    pub open spec fn trimmed(&self) -> Seq<char> {
        self.path@.subrange(self.prefix_length + 1, self.path@.len() - 5)
    }

    /// The URL shown and searched for this entry: blank until the entry
    /// parsed successfully, otherwise the definition's URL with the given
    /// variables substituted.
    pub open spec fn url_text(&self, variables: Option<&Vec<KeyValue>>) -> Seq<char> {
        match self.request_definition {
            Some(Ok(def)) => match variables {
                Some(v) => apply_vars(def.request.url@, v@),
                None => def.request.url@,
            },
            _ => Seq::<char>::empty(),
        }
    }

    /// The description shown and searched for this entry: blank until the
    /// entry parsed successfully with metadata.
    pub open spec fn description_text(&self) -> Seq<char> {
        match self.request_definition {
            Some(Ok(def)) => match def.metadata {
                Some(m) => m.description@,
                None => Seq::<char>::empty(),
            },
            _ => Seq::<char>::empty(),
        }
    }

    pub fn trimmed_path(&self) -> (r: String)
        requires
            self.path@.len() >= self.prefix_length + 6,
        ensures
            r@ == self.trimmed(),
    {
        let n = self.path.as_str().unicode_len();
        let piece = self.path.as_str().substring_char(self.prefix_length + 1, n - 5);
        piece.to_owned()
    }

    pub fn url_or_blank(&self, variables: Option<&Vec<KeyValue>>) -> (r: String)
        ensures
            r@ == self.url_text(variables),
    {
        match &self.request_definition {
            Some(Ok(def)) => match variables {
                Some(vars) => substitute(def.request.url.as_str(), vars.as_slice()).0,
                None => def.request.url.clone(),
            },
            _ => String::new(),
        }
    }

    pub fn description_or_blank(&self) -> (r: &str)
        ensures
            r@ == self.description_text(),
    {
        proof {
            reveal_strlit("");
            assert(""@ =~= Seq::<char>::empty());
        }
        match &self.request_definition {
            Some(Ok(def)) => match &def.metadata {
                Some(m) => m.description.as_str(),
                None => "",
            },
            _ => "",
        }
    }

    /// The composed searchable string for the fuzzy filter: trimmed path,
    /// then URL, then description.
    pub fn search_target(&self, variables: Option<&Vec<KeyValue>>) -> (r: String)
        requires
            self.path@.len() >= self.prefix_length + 6,
        ensures
            r@ == self.trimmed() + self.url_text(variables) + self.description_text(),
    {
        let mut target = self.trimmed_path();
        let url = self.url_or_blank(variables);
        target.append(url.as_str());
        target.append(self.description_or_blank());
        target
    }
}

/// Paths in ascending lexicographic order, duplicates side by side.
pub open spec fn sorted_ascending(s: Seq<Seq<char>>) -> bool {
    forall|k1: int, k2: int|
        0 <= k1 < k2 < s.len() ==> lex_lt(#[trigger] s[k1], #[trigger] s[k2]) || s[k1] == s[k2]
}

/// The paths of the catalog's entries, in catalog order.
pub open spec fn paths_of(choices: Seq<Choice>) -> Seq<Seq<char>> {
    Seq::new(choices.len(), |k: int| choices[k].path@)
}

proof fn lemma_multiset_insert_mid(s: Seq<Seq<char>>, p: int, x: Seq<char>)
    requires
        0 <= p <= s.len(),
    ensures
        s.insert(p, x).to_multiset() =~= s.to_multiset().insert(x),
{
    broadcast use vstd::multiset::group_multiset_axioms;

    let front = s.subrange(0, p);
    let back = s.subrange(p, s.len() as int);
    vstd::seq_lib::lemma_multiset_commutative(front.push(x), back);
    vstd::seq_lib::to_multiset_build(front, x);
    vstd::seq_lib::lemma_multiset_commutative(front, back);
    assert(front + back =~= s);
}

/// Insert `x` into the ascending list `acc`, keeping it ascending; the
/// contents change by exactly that one path.
fn sorted_insert(acc: &mut Vec<String>, x: String)
    requires
        sorted_ascending(old(acc).deep_view()),
    ensures
        sorted_ascending(final(acc).deep_view()),
        final(acc).deep_view().to_multiset() =~= old(acc).deep_view().to_multiset().insert(x@),
        final(acc)@.len() == old(acc)@.len() + 1,
{
    let ghost pre = acc.deep_view();
    let mut p: usize = 0;
    while p < acc.len() && str_less(acc[p].as_str(), x.as_str())
        invariant
            p <= acc@.len(),
            acc.deep_view() == pre,
            sorted_ascending(pre),
            forall|k: int| 0 <= k < p ==> lex_lt(#[trigger] pre[k], x@),
        decreases acc@.len() - p,
    {
        p += 1;
    }
    proof {
        if p < pre.len() {
            lemma_lex_lt_total(pre[p as int], x@);
        }
    }
    acc.insert(p, x);
    proof {
        let post = acc.deep_view();
        old(acc)@.insert_ensures(p as int, x);
        assert(post.len() == pre.len() + 1);
        assert forall|k: int| 0 <= k < post.len() implies post[k] == (if k < p {
            pre[k]
        } else if k == p {
            x@
        } else {
            pre[k - 1]
        }) by {
            assert(acc@[k] == (if k < p {
                old(acc)@[k]
            } else if k == p {
                x
            } else {
                old(acc)@[k - 1]
            }));
        }
        assert forall|k1: int, k2: int|
            0 <= k1 < k2 < post.len() implies lex_lt(#[trigger] post[k1], #[trigger] post[k2])
            || post[k1] == post[k2] by {
            if k1 < p && k2 > p {
                if k2 - 1 > p {
                    if lex_lt(x@, pre[p as int]) {
                        if lex_lt(pre[p as int], pre[k2 - 1]) {
                            lemma_lex_lt_transitive(x@, pre[p as int], pre[k2 - 1]);
                        }
                    }
                }
                if lex_lt(x@, pre[k2 - 1]) {
                    lemma_lex_lt_transitive(pre[k1], x@, pre[k2 - 1]);
                }
            } else if k1 == p && k2 > p {
                if k2 - 1 > p && lex_lt(x@, pre[p as int]) && lex_lt(pre[p as int], pre[k2 - 1]) {
                    lemma_lex_lt_transitive(x@, pre[p as int], pre[k2 - 1]);
                }
            }
        }
        assert(post =~= pre.insert(p as int, x@));
        lemma_multiset_insert_mid(pre, p as int, x@);
    }
}

/// The catalog: an ordered sequence of choices, sorted by path ascending
/// at construction, order stable thereafter.
pub struct DefinitionCatalog {
    pub choices: Vec<Choice>,
}

impl DefinitionCatalog {
    /// Build the catalog from the discovered paths: exactly those paths,
    /// sorted ascending, each entry unparsed.
    pub fn from_paths(paths: Vec<String>, prefix_length: usize) -> (catalog: DefinitionCatalog)
        ensures
            catalog.choices@.len() == paths@.len(),
            sorted_ascending(paths_of(catalog.choices@)),
            paths_of(catalog.choices@).to_multiset() =~= paths.deep_view().to_multiset(),
            forall|k: int|
                0 <= k < catalog.choices@.len() ==> (#[trigger] catalog.choices@[k]).request_definition
                    is None && catalog.choices@[k].prefix_length == prefix_length,
    {
        broadcast use vstd::seq_lib::to_multiset_build;

        let n = paths.len();
        let mut sorted: Vec<String> = Vec::new();
        let mut i: usize = 0;
        proof {
            assert(paths.deep_view().take(0) =~= Seq::<Seq<char>>::empty());
            assert(sorted.deep_view() =~= Seq::<Seq<char>>::empty());
            assert(Seq::<Seq<char>>::empty().to_multiset() =~= Seq::<
                Seq<char>,
            >::empty().to_multiset());
        }
        while i < n
            invariant
                i <= n,
                n == paths@.len(),
                sorted@.len() == i,
                sorted_ascending(sorted.deep_view()),
                sorted.deep_view().to_multiset() =~= paths.deep_view().take(i as int).to_multiset(),
            decreases n - i,
        {
            let x = paths[i].clone();
            let ghost xv = x@;
            proof {
                assert(xv == paths.deep_view()[i as int]);
                assert(paths.deep_view().take(i as int + 1) =~= paths.deep_view().take(
                    i as int,
                ).push(xv));
                vstd::seq_lib::to_multiset_build(paths.deep_view().take(i as int), xv);
            }
            sorted_insert(&mut sorted, x);
            i += 1;
        }
        proof {
            assert(paths.deep_view().take(n as int) =~= paths.deep_view());
        }

        let mut choices: Vec<Choice> = Vec::new();
        let mut k: usize = 0;
        while k < sorted.len()
            invariant
                k <= sorted@.len(),
                choices@.len() == k,
                forall|j: int| 0 <= j < k ==> (#[trigger] choices@[j]).path == sorted@[j],
                forall|j: int|
                    0 <= j < k ==> (#[trigger] choices@[j]).request_definition is None
                        && choices@[j].prefix_length == prefix_length,
            decreases sorted@.len() - k,
        {
            let path = sorted[k].clone();
            choices.push(Choice { path, prefix_length, request_definition: None });
            k += 1;
        }
        let catalog = DefinitionCatalog { choices };
        proof {
            assert(paths_of(catalog.choices@) =~= sorted.deep_view());
        }
        catalog
    }

    /// The background loader's one write per entry: store the parse
    /// result of entry `i`; everything else is untouched.
    pub fn set_parsed(&mut self, i: usize, result: Result<RequestDefinition, ParseError>)
        requires
            i < old(self).choices@.len(),
        ensures
            final(self).choices@.len() == old(self).choices@.len(),
            final(self).choices@[i as int].path == old(self).choices@[i as int].path,
            final(self).choices@[i as int].prefix_length == old(self).choices@[
                i as int
            ].prefix_length,
            final(self).choices@[i as int].request_definition == Some(result),
            forall|k: int|
                0 <= k < old(self).choices@.len() && k != i ==> final(self).choices@[k] == old(
                    self,
                ).choices@[k],
    {
        let choice = &mut self.choices[i];
        choice.request_definition = Some(result);
    }
}

} // verus!
