//! The templating engine: literal, single-pass substitution of `{name}`
//! tokens inside request text, and detection of the tokens that remain
//! unbound.

use vstd::prelude::*;

use crate::keyvalue::KeyValue;
use crate::request_definition::Content;
use crate::request_definition::Headers;
use crate::request_definition::Query;
use crate::request_definition::RequestDefinition;
use crate::text::lemma_lex_lt_asymmetric;
use crate::text::lemma_lex_lt_total;
use crate::text::lemma_lex_lt_transitive;
use crate::text::lex_lt;
use crate::text::push_char;
use crate::text::str_equal;
use crate::text::str_less;

verus! {

/// The literal token that stands for a variable inside a text field:
/// `{name}`.
pub open spec fn token_of(name: Seq<char>) -> Seq<char> {
    seq!['{'] + name + seq!['}']
}

/// Replace every leftmost, non-overlapping occurrence of `p` in `t` by
/// `r`. Replaced text is not rescanned, so the replacement never expands
/// recursively.
pub open spec fn replace_all(t: Seq<char>, p: Seq<char>, r: Seq<char>) -> Seq<char>
    decreases t.len(),
{
    if p.len() == 0 || t.len() < p.len() {
        t
    } else if t.subrange(0, p.len() as int) == p {
        r + replace_all(t.skip(p.len() as int), p, r)
    } else {
        seq![t[0]] + replace_all(t.skip(1), p, r)
    }
}

/// The text after each variable of `vars`, in order, has had its token
/// replaced by its value everywhere in `t`.
pub open spec fn apply_vars(t: Seq<char>, vars: Seq<KeyValue>) -> Seq<char>
    decreases vars.len(),
{
    if vars.len() == 0 {
        t
    } else {
        apply_vars(replace_all(t, token_of(vars[0].name@), vars[0].value@), vars.drop_first())
    }
}

proof fn lemma_apply_vars_snoc(t: Seq<char>, vars: Seq<KeyValue>, v: KeyValue)
    ensures
        apply_vars(t, vars.push(v)) == replace_all(
            apply_vars(t, vars),
            token_of(v.name@),
            v.value@,
        ),
    decreases vars.len(),
{
    if vars.len() == 0 {
        let y = replace_all(t, token_of(v.name@), v.value@);
        assert(vars.push(v)[0] == v);
        assert(vars.push(v).drop_first() =~= Seq::<KeyValue>::empty());
        assert(apply_vars(t, vars.push(v)) == apply_vars(y, vars.push(v).drop_first()));
        assert(apply_vars(y, Seq::<KeyValue>::empty()) == y);
        assert(apply_vars(t, vars) == t);
    } else {
        assert(vars.push(v)[0] == vars[0]);
        assert(vars.push(v).drop_first() =~= vars.drop_first().push(v));
        lemma_apply_vars_snoc(
            replace_all(t, token_of(vars[0].name@), vars[0].value@),
            vars.drop_first(),
            v,
        );
    }
}

/// Does `pattern` occur in `text` starting at character `i`?
fn match_at(text: &str, pattern: &str, i: usize, n: usize, m: usize) -> (b: bool)
    requires
        n == text@.len(),
        m == pattern@.len(),
        i + m <= n,
    ensures
        b == (text@.subrange(i as int, i as int + m as int) == pattern@),
{
    let mut j: usize = 0;
    while j < m
        invariant
            j <= m,
            i + m <= n,
            n == text@.len(),
            m == pattern@.len(),
            forall|k: int| 0 <= k < j ==> text@[i + k] == pattern@[k],
        decreases m - j,
    {
        if text.get_char(i + j) != pattern.get_char(j) {
            assert(text@.subrange(i as int, i as int + m as int)[j as int] != pattern@[j as int]);
            return false;
        }
        j += 1;
    }
    assert(text@.subrange(i as int, i as int + m as int) =~= pattern@);
    true
}

/// Replace every occurrence of `pattern` in `text` by `replacement`,
/// leftmost first, without rescanning replaced text.
pub fn replace(text: &str, pattern: &str, replacement: &str) -> (res: String)
    requires
        pattern@.len() >= 1,
    ensures
        res@ == replace_all(text@, pattern@, replacement@),
{
    let n = text.unicode_len();
    let m = pattern.unicode_len();
    let mut out = String::new();
    let mut i: usize = 0;
    proof {
        assert(text@.skip(0) =~= text@);
        assert(Seq::<char>::empty() + replace_all(text@, pattern@, replacement@) =~= replace_all(
            text@,
            pattern@,
            replacement@,
        ));
    }
    while i < n
        invariant
            i <= n,
            n == text@.len(),
            m == pattern@.len(),
            m >= 1,
            replace_all(text@, pattern@, replacement@) == out@ + replace_all(
                text@.skip(i as int),
                pattern@,
                replacement@,
            ),
        decreases n - i,
    {
        let ghost t = text@;
        let ghost p = pattern@;
        let ghost r = replacement@;
        let ghost pre = out@;
        let matched = if m <= n - i {
            match_at(text, pattern, i, n, m)
        } else {
            false
        };
        if matched {
            out.append(replacement);
            proof {
                assert(t.skip(i as int).subrange(0, m as int) =~= t.subrange(
                    i as int,
                    i as int + m as int,
                ));
                assert(t.skip(i as int).skip(m as int) =~= t.skip(i as int + m as int));
                assert(replace_all(t.skip(i as int), p, r) == r + replace_all(
                    t.skip(i as int + m as int),
                    p,
                    r,
                ));
                assert(pre + (r + replace_all(t.skip(i as int + m as int), p, r)) =~= (pre + r)
                    + replace_all(t.skip(i as int + m as int), p, r));
            }
            i += m;
        } else {
            let c = text.get_char(i);
            push_char(&mut out, c);
            proof {
                assert(t.skip(i as int)[0] == t[i as int]);
                assert(t.skip(i as int).skip(1) =~= t.skip(i as int + 1));
                if m <= t.skip(i as int).len() {
                    assert(t.skip(i as int).subrange(0, m as int) =~= t.subrange(
                        i as int,
                        i as int + m as int,
                    ));
                    assert(replace_all(t.skip(i as int), p, r) == seq![t[i as int]] + replace_all(
                        t.skip(i as int + 1),
                        p,
                        r,
                    ));
                } else {
                    assert(replace_all(t.skip(i as int), p, r) == t.skip(i as int));
                    assert(replace_all(t.skip(i as int + 1), p, r) == t.skip(i as int + 1));
                    assert(t.skip(i as int) =~= seq![t[i as int]] + t.skip(i as int + 1));
                }
                assert(pre + (seq![t[i as int]] + replace_all(t.skip(i as int + 1), p, r)) =~= (pre
                    + seq![t[i as int]]) + replace_all(t.skip(i as int + 1), p, r));
                assert(pre.push(t[i as int]) =~= pre + seq![t[i as int]]);
            }
            i += 1;
        }
    }
    proof {
        assert(text@.skip(n as int) =~= Seq::<char>::empty());
        assert(out@ + Seq::<char>::empty() =~= out@);
    }
    out
}

/// Replace, for every variable in `variables` in order, every literal
/// occurrence of `{name}` in `base` by the variable's value. Unmatched
/// tokens are left verbatim. The boolean reports whether the result
/// differs from `base`.
pub fn substitute(base: &str, variables: &[KeyValue]) -> (res: (String, bool))
    ensures
        res.0@ == apply_vars(base@, variables@),
        res.1 == (res.0@ != base@),
{
    let mut out: String = base.to_owned();
    let mut idx: usize = 0;
    while idx < variables.len()
        invariant
            idx <= variables@.len(),
            out@ == apply_vars(base@, variables@.take(idx as int)),
        decreases variables@.len() - idx,
    {
        let var = &variables[idx];
        let mut target = "{".to_owned();
        target.append(var.name.as_str());
        target.append("}");
        proof {
            reveal_strlit("{");
            reveal_strlit("}");
            assert(target@ =~= token_of(var.name@));
        }
        let replaced = replace(out.as_str(), target.as_str(), var.value.as_str());
        out = replaced;
        proof {
            lemma_apply_vars_snoc(base@, variables@.take(idx as int), variables@[idx as int]);
            assert(variables@.take(idx as int + 1) =~= variables@.take(idx as int).push(
                variables@[idx as int],
            ));
        }
        idx += 1;
    }
    proof {
        assert(variables@.take(variables@.len() as int) =~= variables@);
    }
    let changed = !str_equal(out.as_str(), base);
    (out, changed)
}

/// The position of the first brace character at or after `i`, or the
/// length of `t` if there is none.
pub open spec fn first_brace(t: Seq<char>, i: int) -> int
    decreases t.len() - i,
{
    if i < 0 || i >= t.len() {
        t.len() as int
    } else if t[i] == '{' || t[i] == '}' {
        i
    } else {
        first_brace(t, i + 1)
    }
}

/// Does a complete token `{name}`, with a non-empty brace-free name,
/// start at position `i`?
pub open spec fn token_ready(t: Seq<char>, i: int) -> bool {
    let j = first_brace(t, i + 1);
    &&& 0 <= i < t.len()
    &&& t[i] == '{'
    &&& i + 1 < j
    &&& j < t.len()
    &&& t[j] == '}'
}

/// The names of the tokens found scanning `t` from position `i`,
/// leftmost first, non-overlapping, in the order found.
pub open spec fn tokens_from(t: Seq<char>, i: int) -> Seq<Seq<char>>
    decreases t.len() - i,
{
    if i < 0 || i >= t.len() {
        Seq::empty()
    } else if token_ready(t, i) {
        seq![t.subrange(i + 1, first_brace(t, i + 1))] + tokens_from(t, first_brace(t, i + 1) + 1)
    } else {
        tokens_from(t, i + 1)
    }
}

/// The names of all `{name}` tokens in `t`, in the order found.
pub open spec fn unbound_tokens(t: Seq<char>) -> Seq<Seq<char>> {
    tokens_from(t, 0)
}

/// Does the name `y` occur in the token list `s`?
pub open spec fn seq_has(s: Seq<Seq<char>>, y: Seq<char>) -> bool {
    exists|k: int| 0 <= k < s.len() && s[k] == y
}

/// Token lists are strictly ascending, hence duplicate-free.
pub open spec fn strictly_sorted(s: Seq<Seq<char>>) -> bool {
    forall|k1: int, k2: int| 0 <= k1 < k2 < s.len() ==> lex_lt(s[k1], s[k2])
}

/// The position of the first brace character at or after `start`.
fn scan_brace(s: &str, start: usize, n: usize) -> (j: usize)
    requires
        n == s@.len(),
        start <= n,
    ensures
        start <= j <= n,
        j as int == first_brace(s@, start as int),
        j < n ==> (s@[j as int] == '{' || s@[j as int] == '}'),
{
    let mut j = start;
    while j < n
        invariant
            start <= j <= n,
            n == s@.len(),
            first_brace(s@, start as int) == first_brace(s@, j as int),
        decreases n - j,
    {
        let c = s.get_char(j);
        if c == '{' || c == '}' {
            return j;
        }
        j += 1;
    }
    j
}

/// Scan `s` for `{name}` tokens and return the captured names, in the
/// order found, duplicates kept.
pub fn unbound_in_string(s: &str) -> (res: Vec<String>)
    ensures
        res.deep_view() == unbound_tokens(s@),
{
    let n = s.unicode_len();
    let mut res: Vec<String> = Vec::new();
    let mut i: usize = 0;
    proof {
        assert(res.deep_view() + tokens_from(s@, 0) =~= tokens_from(s@, 0));
    }
    while i < n
        invariant
            i <= n,
            n == s@.len(),
            unbound_tokens(s@) == res.deep_view() + tokens_from(s@, i as int),
        decreases n - i,
    {
        let ghost pre = res.deep_view();
        if s.get_char(i) == '{' {
            let j = scan_brace(s, i + 1, n);
            if j < n && j > i + 1 && s.get_char(j) == '}' {
                assert(token_ready(s@, i as int));
                let name = s.substring_char(i + 1, j).to_owned();
                res.push(name);
                proof {
                    assert(tokens_from(s@, i as int) == seq![
                        s@.subrange(i as int + 1, j as int),
                    ] + tokens_from(s@, j as int + 1));
                    assert(res.deep_view() =~= pre.push(name@));
                    assert(pre + (seq![name@] + tokens_from(s@, j as int + 1)) =~= pre.push(name@)
                        + tokens_from(s@, j as int + 1));
                }
                i = j + 1;
            } else {
                assert(!token_ready(s@, i as int));
                assert(tokens_from(s@, i as int) == tokens_from(s@, i as int + 1));
                i += 1;
            }
        } else {
            assert(!token_ready(s@, i as int));
            assert(tokens_from(s@, i as int) == tokens_from(s@, i as int + 1));
            i += 1;
        }
    }
    proof {
        assert(tokens_from(s@, n as int) =~= Seq::<Seq<char>>::empty());
        assert(res.deep_view() + Seq::<Seq<char>>::empty() =~= res.deep_view());
    }
    res
}

/// Insert `x` into the strictly sorted list `acc`, unless it is already
/// present.
fn sorted_insert_unique(acc: &mut Vec<String>, x: String)
    requires
        strictly_sorted(old(acc).deep_view()),
    ensures
        strictly_sorted(final(acc).deep_view()),
        forall|y: Seq<char>|
            seq_has(final(acc).deep_view(), y) <==> (seq_has(old(acc).deep_view(), y) || y == x@),
{
    let ghost pre = acc.deep_view();
    let mut p: usize = 0;
    while p < acc.len() && str_less(acc[p].as_str(), x.as_str())
        invariant
            p <= acc@.len(),
            acc.deep_view() == pre,
            strictly_sorted(pre),
            forall|k: int| 0 <= k < p ==> lex_lt(pre[k], x@),
        decreases acc@.len() - p,
    {
        p += 1;
    }
    if p < acc.len() && str_equal(acc[p].as_str(), x.as_str()) {
        proof {
            assert(seq_has(pre, x@)) by {
                assert(pre[p as int] == x@);
            }
        }
        return ;
    }
    proof {
        if p < pre.len() {
            lemma_lex_lt_total(pre[p as int], x@);
            assert(lex_lt(x@, pre[p as int]));
        }
    }
    acc.insert(p, x);
    proof {
        let post = acc.deep_view();
        old(acc)@.insert_ensures(p as int, x);
        assert(post.len() == pre.len() + 1);
        assert forall|k: int| 0 <= k < post.len() implies post[k] == (if k < p {
            pre[k]
        } else if k == p {
            x@
        } else {
            pre[k - 1]
        }) by {
            assert(acc@[k] == (if k < p {
                old(acc)@[k]
            } else if k == p {
                x
            } else {
                old(acc)@[k - 1]
            }));
        }
        assert forall|k1: int, k2: int| 0 <= k1 < k2 < post.len() implies lex_lt(
            post[k1],
            post[k2],
        ) by {
            if k1 < p && k2 > p {
                if k2 - 1 > p {
                    lemma_lex_lt_transitive(x@, pre[p as int], pre[k2 - 1]);
                }
                lemma_lex_lt_transitive(pre[k1], x@, pre[k2 - 1]);
            } else if k1 == p && k2 > p {
                if p < pre.len() {
                    if k2 - 1 > p {
                        lemma_lex_lt_transitive(x@, pre[p as int], pre[k2 - 1]);
                    }
                }
            }
        }
        assert forall|y: Seq<char>|
            seq_has(post, y) <==> (seq_has(pre, y) || y == x@) by {
            if seq_has(post, y) {
                let k = choose|k: int| 0 <= k < post.len() && post[k] == y;
                if k < p {
                    assert(pre[k] == y);
                } else if k == p {
                } else {
                    assert(pre[k - 1] == y);
                }
            }
            if seq_has(pre, y) {
                let k = choose|k: int| 0 <= k < pre.len() && pre[k] == y;
                if k < p {
                    assert(post[k] == y);
                } else {
                    assert(post[k + 1] == y);
                }
            }
            if y == x@ {
                assert(post[p as int] == y);
            }
        }
    }
}

/// The names `y` with a token in one of the lists `a` and `b` are
/// exactly those with a token in `a + b`.
proof fn lemma_seq_has_concat(a: Seq<Seq<char>>, b: Seq<Seq<char>>)
    ensures
        forall|y: Seq<char>| seq_has(a + b, y) <==> (seq_has(a, y) || seq_has(b, y)),
{
    assert forall|y: Seq<char>| seq_has(a + b, y) <==> (seq_has(a, y) || seq_has(b, y)) by {
        if seq_has(a + b, y) {
            let k = choose|k: int| 0 <= k < (a + b).len() && (a + b)[k] == y;
            if k < a.len() {
                assert(a[k] == y);
            } else {
                assert(b[k - a.len()] == y);
            }
        }
        if seq_has(a, y) {
            let k = choose|k: int| 0 <= k < a.len() && a[k] == y;
            assert((a + b)[k] == y);
        }
        if seq_has(b, y) {
            let k = choose|k: int| 0 <= k < b.len() && b[k] == y;
            assert((a + b)[k + a.len()] == y);
        }
    }
}

/// A name has a token in `s.push(x)` exactly when it has one in `s` or
/// is `x`.
proof fn lemma_seq_has_push(s: Seq<Seq<char>>, x: Seq<char>)
    ensures
        forall|y: Seq<char>| #[trigger] seq_has(s.push(x), y) <==> (seq_has(s, y) || y == x),
{
    assert forall|y: Seq<char>| #[trigger] seq_has(s.push(x), y) <==> (seq_has(s, y) || y == x) by {
        if seq_has(s.push(x), y) {
            let k = choose|k: int| 0 <= k < s.push(x).len() && s.push(x)[k] == y;
            if k < s.len() {
                assert(s[k] == y);
            } else {
                assert(y == x);
            }
        }
        if seq_has(s, y) {
            let k = choose|k: int| 0 <= k < s.len() && s[k] == y;
            assert(s.push(x)[k] == y);
        }
        if y == x {
            assert(s.push(x)[s.len() as int] == y);
        }
    }
}

/// Merge every token name of `s` into the sorted, duplicate-free list
/// `acc`.
fn insert_tokens(acc: &mut Vec<String>, s: &str)
    requires
        strictly_sorted(old(acc).deep_view()),
    ensures
        strictly_sorted(final(acc).deep_view()),
        forall|y: Seq<char>|
            seq_has(final(acc).deep_view(), y) <==> (seq_has(old(acc).deep_view(), y) || seq_has(
                unbound_tokens(s@),
                y,
            )),
{
    let ghost pre = acc.deep_view();
    let toks = unbound_in_string(s);
    let ghost dv = toks.deep_view();
    let mut k: usize = 0;
    proof {
        assert(dv.take(0) =~= Seq::<Seq<char>>::empty());
    }
    while k < toks.len()
        invariant
            k <= toks@.len(),
            dv == toks.deep_view(),
            dv == unbound_tokens(s@),
            dv.len() == toks@.len(),
            strictly_sorted(acc.deep_view()),
            forall|y: Seq<char>| #![trigger seq_has(pre, y)]
                seq_has(acc.deep_view(), y) <==> (seq_has(pre, y) || seq_has(
                    dv.take(k as int),
                    y,
                )),
        decreases toks@.len() - k,
    {
        let ghost before = acc.deep_view();
        proof {
            assert forall|y: Seq<char>|
                seq_has(before, y) <==> (seq_has(pre, y) || seq_has(dv.take(k as int), y)) by {
                assert(seq_has(pre, y) || !seq_has(pre, y));
            }
        }
        let item = toks[k].clone();
        proof {
            assert(dv[k as int] == toks@[k as int]@);
            assert(item@ == dv[k as int]);
            assert(dv.take(k as int + 1) =~= dv.take(k as int).push(dv[k as int]));
            lemma_seq_has_push(dv.take(k as int), dv[k as int]);
        }
        sorted_insert_unique(acc, item);
        k += 1;
    }
    proof {
        assert(dv.take(k as int) =~= dv);
    }
}

/// The token names of `{name}` tokens in `text`, deduplicated and
/// sorted in ascending lexicographic order.
pub fn find_unbound(text: &str) -> (res: Vec<String>)
    ensures
        strictly_sorted(res.deep_view()),
        forall|y: Seq<char>| seq_has(res.deep_view(), y) <==> seq_has(unbound_tokens(text@), y),
{
    let mut acc: Vec<String> = Vec::new();
    proof {
        assert(acc.deep_view().len() == 0);
    }
    insert_tokens(&mut acc, text);
    acc
}

} // verus!

verus! {

/// All token names in a list of name/value pairs, in scan order.
pub open spec fn kv_list_tokens(s: Seq<KeyValue>) -> Seq<Seq<char>>
    decreases s.len(),
{
    if s.len() == 0 {
        Seq::empty()
    } else {
        kv_list_tokens(s.drop_last()) + unbound_tokens(s.last().name@) + unbound_tokens(
            s.last().value@,
        )
    }
}

/// All token names in a request body, in scan order.
pub open spec fn body_tokens(body: Option<Content>) -> Seq<Seq<char>> {
    match body {
        None => Seq::empty(),
        Some(Content::Text(t)) => unbound_tokens(t@),
        Some(Content::Json(j)) => unbound_tokens(j@),
        Some(Content::UrlEncoded(ps)) => kv_list_tokens(ps@),
    }
}

/// All token names in the substitutable fields of a definition: the URL,
/// every header name and value, every query-parameter name and value, and
/// the body.
pub open spec fn definition_tokens(def: RequestDefinition) -> Seq<Seq<char>> {
    unbound_tokens(def.request.url@) + (match def.headers {
        Some(h) => kv_list_tokens(h.headers@),
        None => Seq::empty(),
    }) + (match def.query {
        Some(q) => kv_list_tokens(q.params@),
        None => Seq::empty(),
    }) + body_tokens(def.body)
}

/// Merge every token name of every name and value in `params` into the
/// sorted, duplicate-free list `acc`.
fn insert_kv_tokens(acc: &mut Vec<String>, params: &Vec<KeyValue>)
    requires
        strictly_sorted(old(acc).deep_view()),
    ensures
        strictly_sorted(final(acc).deep_view()),
        forall|y: Seq<char>|
            seq_has(final(acc).deep_view(), y) <==> (seq_has(old(acc).deep_view(), y) || seq_has(
                kv_list_tokens(params@),
                y,
            )),
{
    let ghost pre = acc.deep_view();
    let mut i: usize = 0;
    proof {
        assert(kv_list_tokens(params@.take(0)) =~= Seq::<Seq<char>>::empty());
    }
    while i < params.len()
        invariant
            i <= params@.len(),
            strictly_sorted(acc.deep_view()),
            forall|y: Seq<char>| #![trigger seq_has(pre, y)]
                seq_has(acc.deep_view(), y) <==> (seq_has(pre, y) || seq_has(
                    kv_list_tokens(params@.take(i as int)),
                    y,
                )),
        decreases params@.len() - i,
    {
        let ghost before = acc.deep_view();
        let ghost taken = kv_list_tokens(params@.take(i as int));
        let ghost toks_n = unbound_tokens(params@[i as int].name@);
        let ghost toks_v = unbound_tokens(params@[i as int].value@);
        proof {
            assert forall|y: Seq<char>|
                seq_has(before, y) <==> (seq_has(pre, y) || seq_has(taken, y)) by {
                assert(seq_has(pre, y) || !seq_has(pre, y));
            }
        }
        insert_tokens(acc, params[i].name.as_str());
        let ghost mid = acc.deep_view();
        insert_tokens(acc, params[i].value.as_str());
        proof {
            assert(params@.take(i as int + 1).drop_last() =~= params@.take(i as int));
            assert(params@.take(i as int + 1).last() == params@[i as int]);
            assert(kv_list_tokens(params@.take(i as int + 1)) == taken + toks_n + toks_v);
            lemma_seq_has_concat(taken, toks_n);
            lemma_seq_has_concat(taken + toks_n, toks_v);
            assert forall|y: Seq<char>|
                seq_has(acc.deep_view(), y) <==> (seq_has(pre, y) || seq_has(
                    kv_list_tokens(params@.take(i as int + 1)),
                    y,
                )) by {
                assert(seq_has(pre, y) || !seq_has(pre, y));
                assert(seq_has(acc.deep_view(), y) <==> (seq_has(mid, y) || seq_has(toks_v, y)));
                assert(seq_has(mid, y) <==> (seq_has(before, y) || seq_has(toks_n, y)));
                assert(seq_has(before, y) <==> (seq_has(pre, y) || seq_has(taken, y)));
                assert(seq_has(taken + toks_n, y) <==> (seq_has(taken, y) || seq_has(toks_n, y)));
                assert(seq_has((taken + toks_n) + toks_v, y) <==> (seq_has(taken + toks_n, y)
                    || seq_has(toks_v, y)));
            }
        }
        i += 1;
    }
    proof {
        assert(params@.take(params@.len() as int) =~= params@);
    }
}

/// The names of all `{name}` tokens that occur anywhere in the
/// substitutable fields of `request_definition`, deduplicated and sorted
/// in ascending lexicographic order.
pub fn list_unbound_variables(request_definition: &RequestDefinition) -> (res: Vec<String>)
    ensures
        strictly_sorted(res.deep_view()),
        forall|y: Seq<char>|
            seq_has(res.deep_view(), y) <==> seq_has(definition_tokens(*request_definition), y),
{
    let ghost url_t = unbound_tokens(request_definition.request.url@);
    let ghost header_t = if request_definition.headers is Some {
        kv_list_tokens(request_definition.headers->Some_0.headers@)
    } else {
        Seq::<Seq<char>>::empty()
    };
    let ghost query_t = if request_definition.query is Some {
        kv_list_tokens(request_definition.query->Some_0.params@)
    } else {
        Seq::<Seq<char>>::empty()
    };
    let ghost body_t = body_tokens(request_definition.body);

    let mut acc: Vec<String> = Vec::new();
    proof {
        assert(acc.deep_view().len() == 0);
    }
    insert_tokens(&mut acc, request_definition.request.url.as_str());
    let ghost a1 = acc.deep_view();
    match &request_definition.headers {
        Some(h) => insert_kv_tokens(&mut acc, &h.headers),
        None => (),
    }
    let ghost a2 = acc.deep_view();
    match &request_definition.query {
        Some(q) => insert_kv_tokens(&mut acc, &q.params),
        None => (),
    }
    let ghost a3 = acc.deep_view();
    match &request_definition.body {
        None => (),
        Some(Content::Text(t)) => insert_tokens(&mut acc, t.as_str()),
        Some(Content::Json(j)) => insert_tokens(&mut acc, j.as_str()),
        Some(Content::UrlEncoded(ps)) => insert_kv_tokens(&mut acc, ps),
    }
    proof {
        lemma_seq_has_concat(url_t, header_t);
        lemma_seq_has_concat(url_t + header_t, query_t);
        lemma_seq_has_concat((url_t + header_t) + query_t, body_t);
        assert forall|y: Seq<char>|
            seq_has(acc.deep_view(), y) <==> seq_has(
                definition_tokens(*request_definition),
                y,
            ) by {
            assert(seq_has(a1, y) <==> seq_has(url_t, y));
            assert(seq_has(a2, y) <==> (seq_has(a1, y) || seq_has(header_t, y)));
            assert(seq_has(a3, y) <==> (seq_has(a2, y) || seq_has(query_t, y)));
            assert(seq_has(acc.deep_view(), y) <==> (seq_has(a3, y) || seq_has(body_t, y)));
            assert(seq_has(definition_tokens(*request_definition), y) <==> (seq_has(
                (url_t + header_t) + query_t,
                y,
            ) || seq_has(body_t, y)));
        }
    }
    acc
}

/// Each pair of `after` is the matching pair of `before` with every
/// variable of `vars` substituted into its name and value.
pub open spec fn kv_substituted(
    before: Seq<KeyValue>,
    after: Seq<KeyValue>,
    vars: Seq<KeyValue>,
) -> bool {
    &&& after.len() == before.len()
    &&& forall|k: int|
        0 <= k < before.len() ==> (#[trigger] after[k].name@) == apply_vars(before[k].name@, vars)
            && after[k].value@ == apply_vars(before[k].value@, vars)
}

/// The body after substitution: the same encoding, with every text field
/// rewritten by `apply_vars`.
pub open spec fn body_substituted(
    before: Option<Content>,
    after: Option<Content>,
    vars: Seq<KeyValue>,
) -> bool {
    match before {
        None => after is None,
        Some(Content::Text(t)) => after matches Some(Content::Text(t2)) && t2@ == apply_vars(
            t@,
            vars,
        ),
        Some(Content::Json(j)) => after matches Some(Content::Json(j2)) && j2@ == apply_vars(
            j@,
            vars,
        ),
        Some(Content::UrlEncoded(ps)) => after matches Some(Content::UrlEncoded(ps2))
            && kv_substituted(ps@, ps2@, vars),
    }
}

/// Substitute `vars` into the name and value of every pair of `params`.
fn substitute_params(params: &Vec<KeyValue>, vars: &[KeyValue]) -> (res: Vec<KeyValue>)
    ensures
        kv_substituted(params@, res@, vars@),
{
    let mut res: Vec<KeyValue> = Vec::new();
    let mut i: usize = 0;
    while i < params.len()
        invariant
            i <= params@.len(),
            res@.len() == i,
            forall|k: int|
                0 <= k < i ==> (#[trigger] res@[k].name@) == apply_vars(params@[k].name@, vars@)
                    && res@[k].value@ == apply_vars(params@[k].value@, vars@),
        decreases params@.len() - i,
    {
        let name = substitute(params[i].name.as_str(), vars).0;
        let value = substitute(params[i].value.as_str(), vars).0;
        res.push(KeyValue { name, value });
        i += 1;
    }
    res
}

/// Substitute `vars` into every substitutable field of `def`: the URL,
/// every header name and value, every query-parameter name and value, and
/// the body. Unmatched tokens are left verbatim everywhere.
pub fn substitute_all(def: &mut RequestDefinition, vars: &[KeyValue])
    ensures
        final(def).request.url@ == apply_vars(old(def).request.url@, vars@),
        final(def).request.method == old(def).request.method,
        final(def).metadata == old(def).metadata,
        match old(def).query {
            None => final(def).query is None,
            Some(q) => final(def).query matches Some(q2) && kv_substituted(
                q.params@,
                q2.params@,
                vars@,
            ),
        },
        match old(def).headers {
            None => final(def).headers is None,
            Some(h) => final(def).headers matches Some(h2) && kv_substituted(
                h.headers@,
                h2.headers@,
                vars@,
            ),
        },
        body_substituted(old(def).body, final(def).body, vars@),
{
    let new_url = substitute(def.request.url.as_str(), vars).0;
    def.request.url = new_url;

    let new_query = match &def.query {
        None => None,
        Some(q) => Some(Query { params: substitute_params(&q.params, vars) }),
    };
    def.query = new_query;

    let new_headers = match &def.headers {
        None => None,
        Some(h) => Some(Headers { headers: substitute_params(&h.headers, vars) }),
    };
    def.headers = new_headers;

    let new_body = match &def.body {
        None => None,
        Some(Content::Text(t)) => Some(Content::Text(substitute(t.as_str(), vars).0)),
        Some(Content::Json(j)) => Some(Content::Json(substitute(j.as_str(), vars).0)),
        Some(Content::UrlEncoded(ps)) => Some(Content::UrlEncoded(substitute_params(ps, vars))),
    };
    def.body = new_body;
}

} // verus!

verus! {

/// Does `p` occur anywhere in `t` as a contiguous run?
pub open spec fn occurs_in(t: Seq<char>, p: Seq<char>) -> bool {
    exists|i: int| 0 <= i <= t.len() - p.len() && #[trigger] t.subrange(i, i + p.len()) == p
}

proof fn lemma_replace_all_absent(t: Seq<char>, p: Seq<char>, r: Seq<char>)
    requires
        p.len() > 0,
        !occurs_in(t, p),
    ensures
        replace_all(t, p, r) == t,
    decreases t.len(),
{
    if t.len() < p.len() {
    } else if t.subrange(0, p.len() as int) == p {
        assert(occurs_in(t, p)) by {
            assert(t.subrange(0, 0 + p.len() as int) == p);
        }
    } else {
        assert(!occurs_in(t.skip(1), p)) by {
            if occurs_in(t.skip(1), p) {
                let i = choose|i: int|
                    0 <= i <= t.skip(1).len() - p.len() && #[trigger] t.skip(1).subrange(i, i + p.len()) == p;
                assert(t.subrange(i + 1, i + 1 + p.len()) =~= t.skip(1).subrange(i, i + p.len()));
                assert(occurs_in(t, p));
            }
        }
        lemma_replace_all_absent(t.skip(1), p, r);
        assert(seq![t[0]] + t.skip(1) =~= t);
    }
}

/// Replacing each occurrence of a pattern by the pattern itself changes
/// nothing: substitution cannot expand, even when a variable's value is
/// its own token.
pub proof fn lemma_replace_all_self(t: Seq<char>, p: Seq<char>)
    requires
        p.len() > 0,
    ensures
        replace_all(t, p, p) == t,
    decreases t.len(),
{
    if t.len() < p.len() {
    } else if t.subrange(0, p.len() as int) == p {
        lemma_replace_all_self(t.skip(p.len() as int), p);
        assert(t.subrange(0, p.len() as int) + t.skip(p.len() as int) =~= t);
    } else {
        lemma_replace_all_self(t.skip(1), p);
        assert(seq![t[0]] + t.skip(1) =~= t);
    }
}

/// A text in which no variable's token occurs any more is left unchanged
/// by substitution.
pub proof fn lemma_apply_vars_unchanged(t: Seq<char>, vars: Seq<KeyValue>)
    requires
        forall|k: int| 0 <= k < vars.len() ==> !occurs_in(t, token_of(#[trigger] vars[k].name@)),
    ensures
        apply_vars(t, vars) == t,
    decreases vars.len(),
{
    if vars.len() > 0 {
        assert(token_of(vars[0].name@).len() > 0);
        lemma_replace_all_absent(t, token_of(vars[0].name@), vars[0].value@);
        assert(forall|k: int|
            0 <= k < vars.drop_first().len() ==> vars.drop_first()[k] == vars[k + 1]);
        lemma_apply_vars_unchanged(t, vars.drop_first());
    }
}

/// Substitution is single-pass and non-recursive: once its result no
/// longer holds any of the variables' tokens, a second pass over the same
/// variable set changes nothing.
pub proof fn lemma_substitute_second_pass(t: Seq<char>, vars: Seq<KeyValue>)
    requires
        forall|k: int|
            0 <= k < vars.len() ==> !occurs_in(
                apply_vars(t, vars),
                token_of(#[trigger] vars[k].name@),
            ),
    ensures
        apply_vars(apply_vars(t, vars), vars) == apply_vars(t, vars),
{
    lemma_apply_vars_unchanged(apply_vars(t, vars), vars);
}

/// Even the adversarial binding of every variable to its own token
/// cannot expand the text: substitution then returns it unchanged.
pub proof fn lemma_substitute_self_tokens(t: Seq<char>, vars: Seq<KeyValue>)
    requires
        forall|k: int| 0 <= k < vars.len() ==> (#[trigger] vars[k].value@) == token_of(
            vars[k].name@,
        ),
    ensures
        apply_vars(t, vars) == t,
    decreases vars.len(),
{
    if vars.len() > 0 {
        assert(token_of(vars[0].name@).len() > 0);
        lemma_replace_all_self(t, token_of(vars[0].name@));
        assert(forall|k: int|
            0 <= k < vars.drop_first().len() ==> vars.drop_first()[k] == vars[k + 1]);
        lemma_substitute_self_tokens(t, vars.drop_first());
    }
}

/// A strictly sorted token list never holds the same name twice: the
/// lists that `find_unbound` and `list_unbound_variables` return are
/// duplicate-free.
pub proof fn lemma_strictly_sorted_no_duplicates(s: Seq<Seq<char>>)
    requires
        strictly_sorted(s),
    ensures
        forall|k1: int, k2: int| 0 <= k1 < k2 < s.len() ==> s[k1] != s[k2],
{
    assert forall|k1: int, k2: int| 0 <= k1 < k2 < s.len() implies s[k1] != s[k2] by {
        lemma_lex_lt_asymmetric(s[k1], s[k2]);
    }
}

} // verus!
