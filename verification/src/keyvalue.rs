//! The ordered name/value pair that is the unit of variables, headers and
//! query parameters, with the `key=value` parser for bindings given on
//! the command line and the sorted merge that lets such bindings
//! overwrite environment variables.

use vstd::prelude::*;

use crate::text::lemma_lex_lt_total;
use crate::text::lemma_lex_lt_transitive;
use crate::text::lex_lt;
use crate::text::str_equal;
use crate::text::str_less;

verus! {

/// A named value: one variable binding, header or query parameter.
pub struct KeyValue {
    pub name: String,
    pub value: String,
}

/// The error returned when a `key=value` binding cannot be parsed.
#[derive(Debug)]
pub struct KeyValueParsingError;

/// Is `c` whitespace, by the Unicode White_Space property (what
/// `str::trim` removes)?
pub open spec fn is_space(c: char) -> bool {
    ||| c == ' '
    ||| c == '\t'
    ||| c == '\n'
    ||| c == '\u{0B}'
    ||| c == '\u{0C}'
    ||| c == '\r'
    ||| c == '\u{85}'
    ||| c == '\u{A0}'
    ||| c == '\u{1680}'
    ||| (0x2000 <= c as u32 && c as u32 <= 0x200A)
    ||| c == '\u{2028}'
    ||| c == '\u{2029}'
    ||| c == '\u{202F}'
    ||| c == '\u{205F}'
    ||| c == '\u{3000}'
}

fn is_space_char(c: char) -> (r: bool)
    ensures
        r == is_space(c),
{
    c == ' ' || c == '\t' || c == '\n' || c == '\u{0B}' || c == '\u{0C}' || c == '\r' || c
        == '\u{85}' || c == '\u{A0}' || c == '\u{1680}' || (0x2000 <= c as u32 && c as u32
        <= 0x200A) || c == '\u{2028}' || c == '\u{2029}' || c == '\u{202F}' || c == '\u{205F}' || c
        == '\u{3000}'
}

/// The position of the first `=` at or after `i`, or the length of `s`
/// if there is none.
pub open spec fn first_eq_from(s: Seq<char>, i: int) -> int
    decreases s.len() - i,
{
    if i < 0 || i >= s.len() {
        s.len() as int
    } else if s[i] == '=' {
        i
    } else {
        first_eq_from(s, i + 1)
    }
}

/// Is `s` a well-formed `key=value` binding: exactly one `=`, and a key
/// that is not blank?
pub open spec fn binding_ok(s: Seq<char>) -> bool {
    let e = first_eq_from(s, 0);
    &&& e < s.len()
    &&& forall|k: int| e < k < s.len() ==> s[k] != '='
    &&& exists|k: int| 0 <= k < e && !is_space(#[trigger] s[k])
}

impl KeyValue {
    pub fn new(name: &str, value: &str) -> (kv: KeyValue)
        ensures
            kv.name@ == name@,
            kv.value@ == value@,
    {
        KeyValue { name: name.to_owned(), value: value.to_owned() }
    }

    /// Parse a `key=value` binding: accepted exactly when `s` holds one
    /// single `=` and the text before it is not blank; the name is then
    /// everything before the `=` and the value everything after it.
    pub fn parse(s: &str) -> (r: Result<KeyValue, KeyValueParsingError>)
        ensures
            r is Ok <==> binding_ok(s@),
            r matches Ok(kv) ==> kv.name@ == s@.subrange(0, first_eq_from(s@, 0)) && kv.value@
                == s@.subrange(first_eq_from(s@, 0) + 1, s@.len() as int),
    {
        let n = s.unicode_len();
        let mut e: usize = 0;
        while e < n && s.get_char(e) != '='
            invariant
                e <= n,
                n == s@.len(),
                first_eq_from(s@, 0) == first_eq_from(s@, e as int),
            decreases n - e,
        {
            e += 1;
        }
        if e == n {
            return Err(KeyValueParsingError);
        }
        assert(s@[e as int] == '=');
        assert(e as int == first_eq_from(s@, 0));
        let mut k: usize = e + 1;
        while k < n
            invariant
                e < k <= n,
                n == s@.len(),
                e as int == first_eq_from(s@, 0),
                forall|j: int| e < j < k ==> s@[j] != '=',
            decreases n - k,
        {
            if s.get_char(k) == '=' {
                assert(!binding_ok(s@)) by {
                    if binding_ok(s@) {
                        assert(first_eq_from(s@, 0) == e as int);
                        assert(s@[k as int] != '=');
                    }
                }
                return Err(KeyValueParsingError);
            }
            k += 1;
        }
        let mut blank = true;
        let mut j: usize = 0;
        while j < e
            invariant
                j <= e,
                e < n,
                n == s@.len(),
                blank == (forall|p: int| 0 <= p < j ==> is_space(#[trigger] s@[p])),
            decreases e - j,
        {
            if !is_space_char(s.get_char(j)) {
                blank = false;
            }
            j += 1;
        }
        if blank {
            assert(!binding_ok(s@)) by {
                if exists|p: int| 0 <= p < e && !is_space(#[trigger] s@[p]) {
                    let p = choose|p: int| 0 <= p < e && !is_space(#[trigger] s@[p]);
                }
            }
            return Err(KeyValueParsingError);
        }
        proof {
            assert(binding_ok(s@)) by {
                assert(!(forall|p: int| 0 <= p < e ==> is_space(#[trigger] s@[p])));
                let p = choose|p: int| 0 <= p < e && !is_space(#[trigger] s@[p]);
            }
        }
        let name = s.substring_char(0, e).to_owned();
        let value = s.substring_char(e + 1, n).to_owned();
        Ok(KeyValue { name, value })
    }
}

/// Pairs in ascending lexicographic order of their names, equal names
/// side by side.
pub open spec fn sorted_by_name(s: Seq<KeyValue>) -> bool {
    forall|k1: int, k2: int|
        0 <= k1 < k2 < s.len() ==> lex_lt((#[trigger] s[k1]).name@, (#[trigger] s[k2]).name@) || s[
            k1
        ].name@ == s[k2].name@
}

/// Is some pair of `s` named `name`?
pub open spec fn has_name(s: Seq<KeyValue>, name: Seq<char>) -> bool {
    exists|k: int| 0 <= k < s.len() && (#[trigger] s[k]).name@ == name
}

proof fn lemma_kv_multiset_insert_mid(s: Seq<KeyValue>, p: int, x: KeyValue)
    requires
        0 <= p <= s.len(),
    ensures
        s.insert(p, x).to_multiset() =~= s.to_multiset().insert(x),
{
    broadcast use vstd::multiset::group_multiset_axioms;

    let front = s.subrange(0, p);
    let back = s.subrange(p, s.len() as int);
    vstd::seq_lib::lemma_multiset_commutative(front.push(x), back);
    vstd::seq_lib::to_multiset_build(front, x);
    vstd::seq_lib::lemma_multiset_commutative(front, back);
    assert(front + back =~= s);
}

/// Insert `x` into the name-sorted list `vars`, keeping it sorted; the
/// contents change by exactly that one pair.
fn sorted_insert_kv(vars: &mut Vec<KeyValue>, x: KeyValue)
    requires
        sorted_by_name(old(vars)@),
    ensures
        sorted_by_name(final(vars)@),
        final(vars)@.to_multiset() =~= old(vars)@.to_multiset().insert(x),
        final(vars)@.len() == old(vars)@.len() + 1,
{
    let ghost pre = vars@;
    let ghost xn = x.name@;
    let mut p: usize = 0;
    while p < vars.len() && str_less(vars[p].name.as_str(), x.name.as_str())
        invariant
            p <= vars@.len(),
            vars@ == pre,
            x.name@ == xn,
            sorted_by_name(pre),
            forall|k: int| 0 <= k < p ==> lex_lt((#[trigger] pre[k]).name@, xn),
        decreases vars@.len() - p,
    {
        p += 1;
    }
    proof {
        if p < pre.len() {
            lemma_lex_lt_total(pre[p as int].name@, xn);
        }
    }
    vars.insert(p, x);
    proof {
        let post = vars@;
        pre.insert_ensures(p as int, x);
        assert forall|k1: int, k2: int|
            0 <= k1 < k2 < post.len() implies lex_lt(
            (#[trigger] post[k1]).name@,
            (#[trigger] post[k2]).name@,
        ) || post[k1].name@ == post[k2].name@ by {
            if k1 < p && k2 > p {
                if k2 - 1 > p && lex_lt(xn, pre[p as int].name@) && lex_lt(
                    pre[p as int].name@,
                    pre[k2 - 1].name@,
                ) {
                    lemma_lex_lt_transitive(xn, pre[p as int].name@, pre[k2 - 1].name@);
                }
                if lex_lt(xn, pre[k2 - 1].name@) {
                    lemma_lex_lt_transitive(pre[k1].name@, xn, pre[k2 - 1].name@);
                }
            } else if k1 == p && k2 > p {
                if k2 - 1 > p && lex_lt(xn, pre[p as int].name@) && lex_lt(
                    pre[p as int].name@,
                    pre[k2 - 1].name@,
                ) {
                    lemma_lex_lt_transitive(xn, pre[p as int].name@, pre[k2 - 1].name@);
                }
            }
        }
        lemma_kv_multiset_insert_mid(pre, p as int, x);
    }
}

/// Sort a variable set by name ascending, keeping exactly the same
/// pairs. Bindings are sorted once before command-line overrides are
/// merged in.
pub fn sort_by_name_ascending(vars: &mut Vec<KeyValue>)
    ensures
        sorted_by_name(final(vars)@),
        final(vars)@.to_multiset() =~= old(vars)@.to_multiset(),
        final(vars)@.len() == old(vars)@.len(),
{
    broadcast use vstd::seq_lib::to_multiset_build;

    let n = vars.len();
    let mut sorted: Vec<KeyValue> = Vec::new();
    let mut i: usize = 0;
    proof {
        assert(vars@.take(0) =~= Seq::<KeyValue>::empty());
        assert(sorted@ =~= Seq::<KeyValue>::empty());
    }
    while i < n
        invariant
            i <= n,
            n == vars@.len(),
            sorted@.len() == i,
            sorted_by_name(sorted@),
            sorted@.to_multiset() =~= vars@.take(i as int).to_multiset(),
        decreases n - i,
    {
        let x = KeyValue {
            name: vars[i].name.clone(),
            value: vars[i].value.clone(),
        };
        proof {
            assert(x == vars@[i as int]);
            assert(vars@.take(i as int + 1) =~= vars@.take(i as int).push(x));
            vstd::seq_lib::to_multiset_build(vars@.take(i as int), x);
        }
        sorted_insert_kv(&mut sorted, x);
        i += 1;
    }
    proof {
        assert(vars@.take(n as int) =~= vars@);
    }
    *vars = sorted;
}

/// Merge one command-line binding into the name-sorted variable set: a
/// pair with the same name is overwritten in place, a new name is
/// inserted at its sorted position. Command-line bindings therefore win
/// over environment variables.
pub fn upsert_binding(vars: &mut Vec<KeyValue>, binding: KeyValue)
    requires
        sorted_by_name(old(vars)@),
    ensures
        sorted_by_name(final(vars)@),
        has_name(final(vars)@, binding.name@),
        if has_name(old(vars)@, binding.name@) {
            exists|k: int|
                0 <= k < old(vars)@.len() && (#[trigger] old(vars)@[k]).name@ == binding.name@
                    && final(vars)@ == old(vars)@.update(k, binding)
        } else {
            exists|k: int|
                0 <= k <= old(vars)@.len() && final(vars)@ == (#[trigger] old(vars)@.insert(
                    k,
                    binding,
                ))
        },
{
    let ghost pre = vars@;
    let ghost bn = binding.name@;
    let mut p: usize = 0;
    while p < vars.len() && str_less(vars[p].name.as_str(), binding.name.as_str())
        invariant
            p <= vars@.len(),
            vars@ == pre,
            binding.name@ == bn,
            sorted_by_name(pre),
            forall|k: int| 0 <= k < p ==> lex_lt((#[trigger] pre[k]).name@, bn),
        decreases vars@.len() - p,
    {
        p += 1;
    }
    let found = p < vars.len() && str_equal(vars[p].name.as_str(), binding.name.as_str());
    proof {
        if p < pre.len() && !found {
            lemma_lex_lt_total(pre[p as int].name@, bn);
        }
        if !found {
            assert(!has_name(pre, bn)) by {
                if has_name(pre, bn) {
                    let k = choose|k: int| 0 <= k < pre.len() && (#[trigger] pre[k]).name@ == bn;
                    if k < p {
                        crate::text::lemma_lex_lt_asymmetric(pre[k].name@, bn);
                    } else if p < pre.len() && k > p {
                        if lex_lt(bn, pre[p as int].name@) {
                            lemma_lex_lt_transitive(bn, pre[p as int].name@, pre[k].name@);
                            crate::text::lemma_lex_lt_asymmetric(bn, pre[k].name@);
                        }
                    }
                }
            }
        }
    }
    if found {
        let removed = vars.remove(p);
        vars.insert(p, binding);
        proof {
            assert(has_name(pre, bn)) by {
                assert(pre[p as int].name@ == bn);
            }
            assert(vars@ =~= pre.update(p as int, binding));
            assert(has_name(vars@, bn)) by {
                assert(vars@[p as int].name@ == bn);
            }
            assert forall|k1: int, k2: int|
                0 <= k1 < k2 < vars@.len() implies lex_lt(
                (#[trigger] vars@[k1]).name@,
                (#[trigger] vars@[k2]).name@,
            ) || vars@[k1].name@ == vars@[k2].name@ by {
                assert(pre[p as int].name@ == bn);
            }
        }
    } else {
        vars.insert(p, binding);
        proof {
            pre.insert_ensures(p as int, binding);
            assert(has_name(vars@, bn)) by {
                assert(vars@[p as int].name@ == bn);
            }
            assert forall|k1: int, k2: int|
                0 <= k1 < k2 < vars@.len() implies lex_lt(
                (#[trigger] vars@[k1]).name@,
                (#[trigger] vars@[k2]).name@,
            ) || vars@[k1].name@ == vars@[k2].name@ by {
                if k1 < p && k2 > p {
                    if k2 - 1 > p && lex_lt(bn, pre[p as int].name@) && lex_lt(
                        pre[p as int].name@,
                        pre[k2 - 1].name@,
                    ) {
                        lemma_lex_lt_transitive(bn, pre[p as int].name@, pre[k2 - 1].name@);
                    }
                    if lex_lt(bn, pre[k2 - 1].name@) {
                        lemma_lex_lt_transitive(pre[k1].name@, bn, pre[k2 - 1].name@);
                    }
                } else if k1 == p && k2 > p {
                    if k2 - 1 > p && lex_lt(bn, pre[p as int].name@) && lex_lt(
                        pre[p as int].name@,
                        pre[k2 - 1].name@,
                    ) {
                        lemma_lex_lt_transitive(bn, pre[p as int].name@, pre[k2 - 1].name@);
                    }
                }
            }
            assert(vars@ == pre.insert(p as int, binding));
        }
    }
}

} // verus!
