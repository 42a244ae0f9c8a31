//! Character and string groundwork: exact decimal rendering of integers,
//! and a lexicographic order on character sequences used by the asset
//! registry to keep its listings sorted.

use vstd::prelude::*;

verus! {

/// The character for one decimal digit value.
pub open spec fn digit_char(d: int) -> char {
    if d == 0 {
        '0'
    } else if d == 1 {
        '1'
    } else if d == 2 {
        '2'
    } else if d == 3 {
        '3'
    } else if d == 4 {
        '4'
    } else if d == 5 {
        '5'
    } else if d == 6 {
        '6'
    } else if d == 7 {
        '7'
    } else if d == 8 {
        '8'
    } else {
        '9'
    }
}

/// The decimal rendering of a non-negative integer, most significant digit
/// first, with no leading zeros (except for the number zero itself).
pub open spec fn dec_digits(n: nat) -> Seq<char>
    decreases n,
{
    if n < 10 {
        seq![digit_char(n as int)]
    } else {
        dec_digits(n / 10) + seq![digit_char((n % 10) as int)]
    }
}

/// The decimal rendering of a signed integer: a leading minus sign for
/// negative values, then the digits of the magnitude.
pub open spec fn dec_int(i: int) -> Seq<char> {
    if i >= 0 {
        dec_digits(i as nat)
    } else {
        seq!['-'] + dec_digits((-i) as nat)
    }
}

/// Relies on `String::push` from the standard library: it appends exactly
/// the one given character to the string.
#[verifier::external_body]
pub fn push_char(s: &mut String, c: char)
    ensures
        final(s)@ == old(s)@.push(c),
{
    s.push(c);
}

fn digit_to_char(d: u64) -> (c: char)
    requires
        d < 10,
    ensures
        c == digit_char(d as int),
{
    if d == 0 {
        '0'
    } else if d == 1 {
        '1'
    } else if d == 2 {
        '2'
    } else if d == 3 {
        '3'
    } else if d == 4 {
        '4'
    } else if d == 5 {
        '5'
    } else if d == 6 {
        '6'
    } else if d == 7 {
        '7'
    } else if d == 8 {
        '8'
    } else {
        '9'
    }
}

/// Appends the decimal rendering of `n` to `out`.
pub fn push_dec_u64(out: &mut String, n: u64)
    ensures
        final(out)@ == old(out)@ + dec_digits(n as nat),
    decreases n,
{
    if n < 10 {
        push_char(out, digit_to_char(n));
        assert(out@ =~= old(out)@ + dec_digits(n as nat));
    } else {
        push_dec_u64(out, n / 10);
        push_char(out, digit_to_char(n % 10));
        assert(out@ =~= old(out)@ + dec_digits(n as nat));
    }
}

/// The decimal rendering of an unsigned 64-bit integer.
pub fn u64_to_dec(n: u64) -> (s: String)
    ensures
        s@ == dec_digits(n as nat),
{
    let mut out = String::new();
    push_dec_u64(&mut out, n);
    assert(out@ =~= dec_digits(n as nat));
    out
}

/// Appends the decimal rendering of the signed integer `i` to `out`.
pub fn push_dec_i64(out: &mut String, i: i64)
    ensures
        final(out)@ == old(out)@ + dec_int(i as int),
{
    if i >= 0 {
        push_dec_u64(out, i as u64);
    } else {
        push_char(out, '-');
        let magnitude: u64 = if i == i64::MIN {
            9223372036854775808u64
        } else {
            (-i) as u64
        };
        push_dec_u64(out, magnitude);
        assert(out@ =~= old(out)@ + dec_int(i as int));
    }
}

/// Strict lexicographic order on character sequences, by Unicode scalar
/// value. This is the order in which asset listings are returned.
pub open spec fn lex_lt(a: Seq<char>, b: Seq<char>) -> bool
    decreases a.len(),
{
    if b.len() == 0 {
        false
    } else if a.len() == 0 {
        true
    } else if (a[0] as u32) < (b[0] as u32) {
        true
    } else if a[0] == b[0] {
        lex_lt(a.drop_first(), b.drop_first())
    } else {
        false
    }
}

/// Non-strict companion of [`lex_lt`].
pub open spec fn lex_le(a: Seq<char>, b: Seq<char>) -> bool {
    lex_lt(a, b) || a == b
}

/// Two characters are equal exactly when their scalar values are.
pub proof fn lemma_char_eq(c1: char, c2: char)
    ensures
        (c1 == c2) == ((c1 as u32) == (c2 as u32)),
{
    if c1 as u32 == c2 as u32 {
        vstd::utf8::char_u32_cast(c1, c1 as u32);
        vstd::utf8::char_u32_cast(c2, c2 as u32);
    }
}

/// Any two character sequences are ordered one way or the other.
pub proof fn lemma_lex_connex(a: Seq<char>, b: Seq<char>)
    ensures
        lex_lt(a, b) || lex_lt(b, a) || a == b,
    decreases a.len(),
{
    if a.len() == 0 || b.len() == 0 {
        if a.len() == b.len() {
            assert(a =~= b);
        }
    } else if a[0] == b[0] {
        lemma_lex_connex(a.drop_first(), b.drop_first());
        if a.drop_first() == b.drop_first() {
            assert(a =~= seq![a[0]] + a.drop_first());
            assert(b =~= seq![b[0]] + b.drop_first());
            assert(seq![a[0]] =~= seq![b[0]]);
        }
    } else {
        lemma_char_eq(a[0], b[0]);
    }
}

/// The strict order never holds both ways.
pub proof fn lemma_lex_asym(a: Seq<char>, b: Seq<char>)
    ensures
        !(lex_lt(a, b) && lex_lt(b, a)),
    decreases a.len(),
{
    if a.len() > 0 && b.len() > 0 && a[0] == b[0] {
        lemma_lex_asym(a.drop_first(), b.drop_first());
    }
}

/// The strict order is irreflexive.
pub proof fn lemma_lex_irrefl(a: Seq<char>)
    ensures
        !lex_lt(a, a),
    decreases a.len(),
{
    if a.len() > 0 {
        lemma_lex_irrefl(a.drop_first());
    }
}

/// The strict order is transitive.
pub proof fn lemma_lex_trans(a: Seq<char>, b: Seq<char>, c: Seq<char>)
    requires
        lex_lt(a, b),
        lex_lt(b, c),
    ensures
        lex_lt(a, c),
    decreases a.len(),
{
    if a.len() > 0 && b.len() > 0 && c.len() > 0 && a[0] == b[0] && b[0] == c[0] {
        lemma_lex_trans(a.drop_first(), b.drop_first(), c.drop_first());
    }
}

/// Dropping a common prefix does not change how two sequences compare.
pub proof fn lemma_lex_skip(a: Seq<char>, b: Seq<char>, i: int)
    requires
        0 <= i <= a.len(),
        i <= b.len(),
        a.subrange(0, i) == b.subrange(0, i),
    ensures
        lex_lt(a, b) == lex_lt(a.skip(i), b.skip(i)),
    decreases i,
{
    if i > 0 {
        assert(a.len() > 0 && b.len() > 0);
        assert(a[0] == b[0]) by {
            assert(a.subrange(0, i)[0] == a[0]);
            assert(b.subrange(0, i)[0] == b[0]);
        }
        assert(a.drop_first().subrange(0, i - 1) =~= b.drop_first().subrange(0, i - 1)) by {
            assert forall|k: int| 0 <= k < i - 1 implies #[trigger] a.drop_first().subrange(
                0,
                i - 1,
            )[k] == b.drop_first().subrange(0, i - 1)[k] by {
                assert(a.drop_first().subrange(0, i - 1)[k] == a[k + 1]);
                assert(b.drop_first().subrange(0, i - 1)[k] == b[k + 1]);
                assert(a.subrange(0, i)[k + 1] == a[k + 1]);
                assert(b.subrange(0, i)[k + 1] == b[k + 1]);
            }
        }
        lemma_lex_skip(a.drop_first(), b.drop_first(), i - 1);
        assert(a.drop_first().skip(i - 1) =~= a.skip(i));
        assert(b.drop_first().skip(i - 1) =~= b.skip(i));
    } else {
        assert(a.skip(0) =~= a);
        assert(b.skip(0) =~= b);
    }
}

/// Decides the strict lexicographic order on two strings.
pub fn str_lt(a: &str, b: &str) -> (r: bool)
    ensures
        r == lex_lt(a@, b@),
{
    let a_len = a.unicode_len();
    let b_len = b.unicode_len();
    let mut i: usize = 0;
    loop
        invariant
            i <= a_len,
            i <= b_len,
            a_len == a@.len(),
            b_len == b@.len(),
            a@.subrange(0, i as int) == b@.subrange(0, i as int),
        decreases a_len - i,
    {
        if i == a_len || i == b_len {
            proof {
                lemma_lex_skip(a@, b@, i as int);
            }
            return i == a_len && i < b_len;
        }
        let ca = a.get_char(i);
        let cb = b.get_char(i);
        if ca as u32 != cb as u32 {
            proof {
                lemma_lex_skip(a@, b@, i as int);
                assert(a@.skip(i as int)[0] == ca);
                assert(b@.skip(i as int)[0] == cb);
            }
            return (ca as u32) < (cb as u32);
        }
        proof {
            lemma_char_eq(ca, cb);
            assert(a@.subrange(0, i + 1) =~= b@.subrange(0, i + 1)) by {
                assert forall|k: int| 0 <= k < i + 1 implies #[trigger] a@.subrange(0, i + 1)[k]
                    == b@.subrange(0, i + 1)[k] by {
                    if k < i {
                        assert(a@.subrange(0, i as int)[k] == b@.subrange(0, i as int)[k]);
                    }
                }
            }
        }
        i = i + 1;
    }
}

/// Decides equality of two strings.
pub fn str_eq(a: &str, b: &str) -> (r: bool)
    ensures
        r == (a@ == b@),
{
    let a_len = a.unicode_len();
    let b_len = b.unicode_len();
    if a_len != b_len {
        return false;
    }
    let mut i: usize = 0;
    loop
        invariant
            i <= a_len,
            a_len == a@.len(),
            b_len == b@.len(),
            a_len == b_len,
            forall|k: int| 0 <= k < i ==> a@[k] == b@[k],
        decreases a_len - i,
    {
        if i == a_len {
            proof {
                assert(a@ =~= b@);
            }
            return true;
        }
        let ca = a.get_char(i);
        let cb = b.get_char(i);
        if ca as u32 != cb as u32 {
            proof {
                assert(a@[i as int] == ca);
                assert(b@[i as int] == cb);
            }
            return false;
        }
        proof {
            lemma_char_eq(ca, cb);
        }
        i = i + 1;
    }
}

} // verus!
