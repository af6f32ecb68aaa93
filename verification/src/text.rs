//! Small verified text utilities: string equality, ASCII case-insensitive
//! matching against lowercase patterns, and decimal rendering of integers.

use vstd::prelude::*;

verus! {

/// Character-wise equality of two string slices.
pub fn str_eq(a: &str, b: &str) -> (r: bool)
    ensures
        r == (a@ == b@),
{
    let alen = a.unicode_len();
    let blen = b.unicode_len();
    if alen != blen {
        proof {
            assert(a@ != b@);
        }
        return false;
    }
    let mut k: usize = 0;
    while k < alen
        invariant
            0 <= k <= alen,
            alen == a@.len(),
            alen == b@.len(),
            forall|j: int| 0 <= j < k ==> a@[j] == b@[j],
        decreases alen - k,
    {
        if a.get_char(k) != b.get_char(k) {
            return false;
        }
        k += 1;
    }
    proof {
        assert(a@ =~= b@);
    }
    true
}

/// Equality of a string slice against an owned string.
pub fn string_eq_str(a: &String, b: &str) -> (r: bool)
    ensures
        r == (a@ == b@),
{
    str_eq(a.as_str(), b)
}

/// `a` equals lowercase letter `l` up to ASCII case: either exactly, or `a`
/// is the uppercase form of `l`.
pub open spec fn char_matches_lower(a: char, l: char) -> bool {
    a == l || ('A' <= a && a <= 'Z' && a as u32 + 32 == l as u32)
}

/// `s` equals the (lowercase) pattern `l` up to ASCII case.
pub open spec fn str_matches_lower(s: Seq<char>, l: Seq<char>) -> bool {
    s.len() == l.len() && forall|j: int| 0 <= j < l.len() ==> char_matches_lower(s[j], #[trigger] l[j])
}

/// `s` starts with the (lowercase) pattern `l` up to ASCII case.
pub open spec fn str_starts_lower(s: Seq<char>, l: Seq<char>) -> bool {
    s.len() >= l.len() && forall|j: int| 0 <= j < l.len() ==> char_matches_lower(s[j], #[trigger] l[j])
}

fn char_matches_lower_exec(a: char, l: char) -> (r: bool)
    ensures
        r == char_matches_lower(a, l),
{
    a == l || ('A' <= a && a <= 'Z' && a as u32 + 32 == l as u32)
}

/// Whether `s` equals the lowercase pattern `pat` up to ASCII case.
pub fn eq_lower(s: &str, pat: &str) -> (r: bool)
    ensures
        r == str_matches_lower(s@, pat@),
{
    let slen = s.unicode_len();
    let plen = pat.unicode_len();
    if slen != plen {
        return false;
    }
    let mut k: usize = 0;
    while k < plen
        invariant
            0 <= k <= plen,
            slen == s@.len(),
            plen == pat@.len(),
            slen == plen,
            forall|j: int| 0 <= j < k ==> char_matches_lower(s@[j], #[trigger] pat@[j]),
        decreases plen - k,
    {
        if !char_matches_lower_exec(s.get_char(k), pat.get_char(k)) {
            return false;
        }
        k += 1;
    }
    true
}

/// Whether `s` starts with the lowercase pattern `pat` up to ASCII case.
pub fn starts_lower(s: &str, pat: &str) -> (r: bool)
    ensures
        r == str_starts_lower(s@, pat@),
{
    let slen = s.unicode_len();
    let plen = pat.unicode_len();
    if slen < plen {
        return false;
    }
    let mut k: usize = 0;
    while k < plen
        invariant
            0 <= k <= plen,
            slen == s@.len(),
            plen == pat@.len(),
            slen >= plen,
            forall|j: int| 0 <= j < k ==> char_matches_lower(s@[j], #[trigger] pat@[j]),
        decreases plen - k,
    {
        if !char_matches_lower_exec(s.get_char(k), pat.get_char(k)) {
            return false;
        }
        k += 1;
    }
    true
}

/// The decimal digit character for `d`, which must be below ten.
pub open spec fn dec_digit(d: int) -> char {
    if d == 0 {
        '0'
    } else if d == 1 {
        '1'
    } else if d == 2 {
        '2'
    } else if d == 3 {
        '3'
    } else if d == 4 {
        '4'
    } else if d == 5 {
        '5'
    } else if d == 6 {
        '6'
    } else if d == 7 {
        '7'
    } else if d == 8 {
        '8'
    } else {
        '9'
    }
}

/// Decimal rendering of a nonnegative integer, most significant digit first,
/// with no leading zeros (zero itself renders as one digit).
pub open spec fn dec_str(n: int) -> Seq<char>
    decreases n,
{
    if n <= 9 {
        seq![dec_digit(n)]
    } else {
        dec_str(n / 10).push(dec_digit(n % 10))
    }
}

pub fn digit_str(d: usize) -> (r: &'static str)
    requires
        d < 10,
    ensures
        r@ =~= seq![dec_digit(d as int)],
{
    proof {
        reveal_strlit("0");
        reveal_strlit("1");
        reveal_strlit("2");
        reveal_strlit("3");
        reveal_strlit("4");
        reveal_strlit("5");
        reveal_strlit("6");
        reveal_strlit("7");
        reveal_strlit("8");
        reveal_strlit("9");
    }
    match d {
        0 => "0",
        1 => "1",
        2 => "2",
        3 => "3",
        4 => "4",
        5 => "5",
        6 => "6",
        7 => "7",
        8 => "8",
        _ => "9",
    }
}

/// Renders `n` in decimal.
pub fn usize_to_string(n: usize) -> (s: String)
    ensures
        s@ == dec_str(n as int),
    decreases n,
{
    if n <= 9 {
        let d = digit_str(n);
        d.to_owned()
    } else {
        let mut s = usize_to_string(n / 10);
        s.append(digit_str(n % 10));
        s
    }
}


/// Strict lexicographic order on character sequences, by code point, with a
/// proper prefix ordered first.
pub open spec fn seq_char_lt(a: Seq<char>, b: Seq<char>) -> bool
    decreases a.len(),
{
    if b.len() == 0 {
        false
    } else if a.len() == 0 {
        true
    } else if (a.first() as u32) < (b.first() as u32) {
        true
    } else if (a.first() as u32) > (b.first() as u32) {
        false
    } else {
        seq_char_lt(a.drop_first(), b.drop_first())
    }
}

/// Characters with equal code points are equal.
proof fn lemma_char_eq_from_u32(x: char, y: char)
    requires
        x as u32 == y as u32,
    ensures
        x == y,
{
}

/// Exactly one of `a < b`, `a == b`, `b < a` holds.
pub proof fn lemma_seq_char_lt_trichotomy(a: Seq<char>, b: Seq<char>)
    ensures
        seq_char_lt(a, b) || a == b || seq_char_lt(b, a),
        seq_char_lt(a, b) ==> a != b && !seq_char_lt(b, a),
        a == b ==> !seq_char_lt(a, b) && !seq_char_lt(b, a),
    decreases a.len() + b.len(),
{
    if a.len() == 0 && b.len() == 0 {
        assert(a =~= b);
    } else if a.len() > 0 && b.len() > 0 {
        lemma_seq_char_lt_trichotomy(a.drop_first(), b.drop_first());
        if a.first() as u32 == b.first() as u32 {
            lemma_char_eq_from_u32(a.first(), b.first());
            assert(a.first() == b.first());
            if a.drop_first() == b.drop_first() {
                assert(a.len() == b.len());
                assert forall|j: int| 0 <= j < a.len() implies a[j] == b[j] by {
                    if j > 0 {
                        assert(a.drop_first()[j - 1] == a[j]);
                        assert(b.drop_first()[j - 1] == b[j]);
                    }
                }
                assert(a =~= b);
            } else {
                assert(a != b) by {
                    if a == b {
                        assert forall|j: int|
                            0 <= j < a.drop_first().len() implies a.drop_first()[j]
                            == b.drop_first()[j] by {
                            assert(a.drop_first()[j] == a[j + 1]);
                            assert(b.drop_first()[j] == b[j + 1]);
                        }
                        assert(a.drop_first() =~= b.drop_first());
                    }
                }
            }
        } else {
            assert(a != b) by {
                if a == b {
                    assert(a.first() == b.first());
                }
            }
        }
    }
}

/// The order is transitive.
pub proof fn lemma_seq_char_lt_transitive(a: Seq<char>, b: Seq<char>, c: Seq<char>)
    requires
        seq_char_lt(a, b),
        seq_char_lt(b, c),
    ensures
        seq_char_lt(a, c),
    decreases a.len() + b.len() + c.len(),
{
    assert(b.len() > 0 && c.len() > 0);
    if a.len() > 0 {
        if a.first() as u32 == b.first() as u32 && b.first() as u32 == c.first() as u32 {
            lemma_seq_char_lt_transitive(a.drop_first(), b.drop_first(), c.drop_first());
        }
    }
}

/// The order is unchanged by dropping an equal prefix.
proof fn lemma_seq_char_lt_skip(a: Seq<char>, b: Seq<char>, k: int)
    requires
        0 <= k <= a.len(),
        k <= b.len(),
        forall|j: int| 0 <= j < k ==> a[j] == b[j],
    ensures
        seq_char_lt(a, b) == seq_char_lt(a.skip(k), b.skip(k)),
    decreases k,
{
    if k > 0 {
        assert(a.len() > 0 && b.len() > 0);
        assert(a.first() == b.first());
        assert(forall|j: int|
            0 <= j < k - 1 ==> #[trigger] a.drop_first()[j] == a[j + 1] && #[trigger] b.drop_first()[j]
                == b[j + 1]);
        lemma_seq_char_lt_skip(a.drop_first(), b.drop_first(), k - 1);
        assert(a.drop_first().skip(k - 1) =~= a.skip(k));
        assert(b.drop_first().skip(k - 1) =~= b.skip(k));
    } else {
        assert(a.skip(0) =~= a);
        assert(b.skip(0) =~= b);
    }
}

/// Compares two string slices in the lexicographic order.
pub fn str_lt(a: &str, b: &str) -> (r: bool)
    ensures
        r == seq_char_lt(a@, b@),
{
    let alen = a.unicode_len();
    let blen = b.unicode_len();
    let mut k: usize = 0;
    while k < alen && k < blen
        invariant
            0 <= k,
            k <= alen,
            k <= blen,
            alen == a@.len(),
            blen == b@.len(),
            forall|j: int| 0 <= j < k ==> a@[j] == b@[j],
        decreases alen - k,
    {
        let ca = a.get_char(k);
        let cb = b.get_char(k);
        if ca != cb {
            proof {
                lemma_seq_char_lt_skip(a@, b@, k as int);
                assert(a@.skip(k as int).first() == a@[k as int]);
                assert(b@.skip(k as int).first() == b@[k as int]);
            }
            return (ca as u32) < (cb as u32);
        }
        k += 1;
    }
    proof {
        lemma_seq_char_lt_skip(a@, b@, k as int);
        if k == alen {
            assert(a@.skip(k as int) =~= Seq::<char>::empty());
        } else {
            assert(b@.skip(k as int) =~= Seq::<char>::empty());
        }
    }
    alen < blen
}

} // verus!
