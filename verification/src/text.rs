//! Character-level utilities shared by the templating engine and the
//! interactive state machines: a lexicographic order on character
//! sequences (by code point, the order in which token names and paths are
//! sorted) and executable comparison and equality over `&str`.

use vstd::prelude::*;

verus! {

/// Strict lexicographic order on character sequences, by code point.
pub open spec fn lex_lt(a: Seq<char>, b: Seq<char>) -> bool
    decreases a.len(),
{
    if b.len() == 0 {
        false
    } else if a.len() == 0 {
        true
    } else if (a[0] as u32) < (b[0] as u32) {
        true
    } else if (b[0] as u32) < (a[0] as u32) {
        false
    } else {
        lex_lt(a.drop_first(), b.drop_first())
    }
}

/// Casting to `u32` is injective on `char`.
pub proof fn lemma_char_eq_from_u32(c1: char, c2: char)
    requires
        c1 as u32 == c2 as u32,
    ensures
        c1 == c2,
{
    vstd::utf8::char_u32_cast(c1, c1 as u32);
    vstd::utf8::char_u32_cast(c2, c2 as u32);
}

/// Two nonempty sequences with equal heads and equal tails are equal.
proof fn lemma_seq_eq_from_parts(a: Seq<char>, b: Seq<char>)
    requires
        a.len() > 0,
        b.len() > 0,
        a[0] == b[0],
        a.drop_first() == b.drop_first(),
    ensures
        a == b,
{
    assert(a.drop_first().len() == a.len() - 1);
    assert(b.drop_first().len() == b.len() - 1);
    assert forall|k: int| 0 <= k < a.len() implies a[k] == b[k] by {
        if k > 0 {
            assert(a[k] == a.drop_first()[k - 1]);
            assert(b[k] == b.drop_first()[k - 1]);
        }
    }
    assert(a =~= b);
}

pub proof fn lemma_lex_lt_asymmetric(a: Seq<char>, b: Seq<char>)
    requires
        lex_lt(a, b),
    ensures
        !lex_lt(b, a),
        a != b,
    decreases a.len(),
{
    if b.len() == 0 {
    } else if a.len() == 0 {
    } else if (a[0] as u32) < (b[0] as u32) {
    } else if (b[0] as u32) < (a[0] as u32) {
    } else {
        lemma_char_eq_from_u32(a[0], b[0]);
        lemma_lex_lt_asymmetric(a.drop_first(), b.drop_first());
        assert(a != b) by {
            assert(a.drop_first() != b.drop_first());
            if a == b {
                assert(a.drop_first() =~= b.drop_first());
            }
        }
    }
}

pub proof fn lemma_lex_lt_total(a: Seq<char>, b: Seq<char>)
    ensures
        lex_lt(a, b) || lex_lt(b, a) || a == b,
    decreases a.len(),
{
    if b.len() == 0 {
        if a.len() == 0 {
            assert(a =~= b);
        }
    } else if a.len() == 0 {
    } else if (a[0] as u32) < (b[0] as u32) {
    } else if (b[0] as u32) < (a[0] as u32) {
    } else {
        lemma_char_eq_from_u32(a[0], b[0]);
        lemma_lex_lt_total(a.drop_first(), b.drop_first());
        if a.drop_first() == b.drop_first() {
            lemma_seq_eq_from_parts(a, b);
        }
    }
}

pub proof fn lemma_lex_lt_transitive(a: Seq<char>, b: Seq<char>, c: Seq<char>)
    requires
        lex_lt(a, b),
        lex_lt(b, c),
    ensures
        lex_lt(a, c),
    decreases a.len(),
{
    if b.len() == 0 {
    } else if a.len() == 0 {
    } else if c.len() == 0 {
    } else if (a[0] as u32) < (b[0] as u32) {
        if (b[0] as u32) < (c[0] as u32) {
        } else {
            lemma_char_eq_from_u32(b[0], c[0]);
        }
    } else {
        lemma_char_eq_from_u32(a[0], b[0]);
        if (b[0] as u32) < (c[0] as u32) {
        } else {
            lemma_char_eq_from_u32(b[0], c[0]);
            lemma_lex_lt_transitive(a.drop_first(), b.drop_first(), c.drop_first());
        }
    }
}

/// The three outcomes of comparing two strings lexicographically.
pub enum StrOrder {
    Less,
    Equal,
    Greater,
}

proof fn lemma_lex_lt_from_prefix(a: Seq<char>, b: Seq<char>, i: int)
    requires
        0 <= i <= a.len(),
        i <= b.len(),
        forall|k: int| 0 <= k < i ==> a[k] == b[k],
    ensures
        (i < a.len() && i < b.len() && (a[i] as u32) < (b[i] as u32)) ==> lex_lt(a, b),
        (i == a.len() && i < b.len()) ==> lex_lt(a, b),
        (i == a.len() && i == b.len()) ==> a == b,
    decreases i,
{
    if i == 0 {
        if i == a.len() && i == b.len() {
            assert(a =~= b);
        }
    } else {
        assert(forall|k: int| 0 <= k < i - 1 ==> #[trigger] a.drop_first()[k]
            == b.drop_first()[k]);
        lemma_lex_lt_from_prefix(a.drop_first(), b.drop_first(), i - 1);
        assert(a[0] == b[0]);
        if i == a.len() && i == b.len() && a.drop_first() == b.drop_first() {
            lemma_seq_eq_from_parts(a, b);
        }
    }
}

/// Compare two strings in the lexicographic order `lex_lt`.
pub fn compare_str(a: &str, b: &str) -> (r: StrOrder)
    ensures
        r is Less ==> lex_lt(a@, b@),
        r is Equal ==> a@ == b@,
        r is Greater ==> lex_lt(b@, a@),
{
    let alen = a.unicode_len();
    let blen = b.unicode_len();
    let mut i: usize = 0;
    while i < alen && i < blen
        invariant
            i <= alen,
            i <= blen,
            alen == a@.len(),
            blen == b@.len(),
            forall|k: int| 0 <= k < i ==> a@[k] == b@[k],
        decreases alen - i,
    {
        let ca = a.get_char(i);
        let cb = b.get_char(i);
        if (ca as u32) < (cb as u32) {
            proof { lemma_lex_lt_from_prefix(a@, b@, i as int); }
            return StrOrder::Less;
        }
        if (cb as u32) < (ca as u32) {
            proof { lemma_lex_lt_from_prefix(b@, a@, i as int); }
            return StrOrder::Greater;
        }
        proof { lemma_char_eq_from_u32(a@[i as int], b@[i as int]); }
        i += 1;
    }
    proof { lemma_lex_lt_from_prefix(a@, b@, i as int); }
    proof { lemma_lex_lt_from_prefix(b@, a@, i as int); }
    if alen < blen {
        StrOrder::Less
    } else if blen < alen {
        StrOrder::Greater
    } else {
        StrOrder::Equal
    }
}

/// Is `a` strictly before `b` in the lexicographic order?
pub fn str_less(a: &str, b: &str) -> (r: bool)
    ensures
        r == lex_lt(a@, b@),
{
    match compare_str(a, b) {
        StrOrder::Less => true,
        StrOrder::Equal => {
            proof {
                if lex_lt(a@, b@) {
                    lemma_lex_lt_asymmetric(a@, b@);
                }
            }
            false
        },
        StrOrder::Greater => {
            proof {
                lemma_lex_lt_asymmetric(b@, a@);
            }
            false
        },
    }
}

/// Structural equality of two string slices.
pub fn str_equal(a: &str, b: &str) -> (r: bool)
    ensures
        r == (a@ == b@),
{
    let alen = a.unicode_len();
    let blen = b.unicode_len();
    if alen != blen {
        return false;
    }
    let mut i: usize = 0;
    while i < alen
        invariant
            i <= alen,
            alen == a@.len(),
            alen == b@.len(),
            forall|k: int| 0 <= k < i ==> a@[k] == b@[k],
        decreases alen - i,
    {
        if a.get_char(i) != b.get_char(i) {
            return false;
        }
        i += 1;
    }
    assert(a@ =~= b@);
    true
}

/// Relies on `String::push`: appends exactly the given character.
#[verifier::external_body]
pub fn push_char(s: &mut String, c: char)
    ensures
        final(s)@ == old(s)@.push(c),
{
    s.push(c);
}

/// Shorten a string to its first `n` characters.
pub fn truncate_chars(s: &str, n: usize) -> (r: String)
    requires
        n <= s@.len(),
    ensures
        r@ == s@.take(n as int),
{
    let piece = s.substring_char(0, n);
    let r = piece.to_owned();
    assert(r@ =~= s@.take(n as int));
    r
}

} // verus!
