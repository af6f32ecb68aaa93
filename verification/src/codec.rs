//! The on-disk encoding of the state: a canonical JSON document. The
//! renderer and the parser are both verified against specification-level
//! functions, and parsing what was rendered provably gives the state back.

use vstd::prelude::*;

use crate::catalog::{image_display, is_digit_char, runtime_display};
use crate::model::{
    Image, Instance, InstanceStage, InstanceStatus, InstanceView, Node, NodeView, Runtime, State,
    StateView, StatusView, StoragePool, StoragePoolView, User, UserView,
};
use crate::text::{dec_digit, dec_str, digit_str, usize_to_string};

verus! {

// ---------------------------------------------------------------------------
// Literals.
// ---------------------------------------------------------------------------

/// Consumes an expected literal prefix.
pub open spec fn spec_parse_lit(s: Seq<char>, lit: Seq<char>) -> Option<Seq<char>> {
    if s.len() >= lit.len() && s.take(lit.len() as int) == lit {
        Some(s.skip(lit.len() as int))
    } else {
        None
    }
}

pub proof fn lemma_parse_lit_prepend(lit: Seq<char>, rest: Seq<char>)
    ensures
        spec_parse_lit(lit + rest, lit) == Some(rest),
{
    assert((lit + rest).take(lit.len() as int) =~= lit);
    assert((lit + rest).skip(lit.len() as int) =~= rest);
}

/// Consumes the literal `lit` from the front of `s`.
fn parse_lit<'a>(s: &'a str, lit: &str) -> (r: Option<&'a str>)
    ensures
        match r {
            Some(rest) => spec_parse_lit(s@, lit@) == Some(rest@),
            None => spec_parse_lit(s@, lit@) is None,
        },
{
    let slen = s.unicode_len();
    let llen = lit.unicode_len();
    if slen < llen {
        return None;
    }
    let mut k: usize = 0;
    while k < llen
        invariant
            0 <= k <= llen,
            slen == s@.len(),
            llen == lit@.len(),
            slen >= llen,
            forall|j: int| 0 <= j < k ==> s@[j] == lit@[j],
        decreases llen - k,
    {
        if s.get_char(k) != lit.get_char(k) {
            proof {
                assert(s@.take(llen as int)[k as int] != lit@[k as int]);
            }
            return None;
        }
        k += 1;
    }
    proof {
        assert(s@.take(llen as int) =~= lit@);
    }
    Some(s.substring_char(llen, slen))
}

// ---------------------------------------------------------------------------
// Strings, with escapes for the quote and the backslash.
// ---------------------------------------------------------------------------

/// Escapes quotes and backslashes.
pub open spec fn escape_str(s: Seq<char>) -> Seq<char>
    decreases s.len(),
{
    if s.len() == 0 {
        Seq::<char>::empty()
    } else {
        (if s.first() == '"' || s.first() == '\\' {
            seq!['\\', s.first()]
        } else {
            seq![s.first()]
        }) + escape_str(s.drop_first())
    }
}

/// A rendered string: quote, escaped contents, quote.
pub open spec fn render_string(s: Seq<char>) -> Seq<char> {
    seq!['"'] + escape_str(s) + seq!['"']
}

/// Parses the body of a quoted string up to the closing quote, undoing the
/// escapes; returns the contents and what follows the closing quote.
pub open spec fn parse_str_body(s: Seq<char>) -> Option<(Seq<char>, Seq<char>)>
    decreases s.len(),
{
    if s.len() == 0 {
        None
    } else if s.first() == '"' {
        Some((Seq::<char>::empty(), s.drop_first()))
    } else if s.first() == '\\' {
        if s.len() >= 2 {
            match parse_str_body(s.skip(2)) {
                Some((body, rest)) => Some((seq![s[1]] + body, rest)),
                None => None,
            }
        } else {
            None
        }
    } else {
        match parse_str_body(s.drop_first()) {
            Some((body, rest)) => Some((seq![s.first()] + body, rest)),
            None => None,
        }
    }
}

/// A rendered string parses back to itself.
pub proof fn lemma_string_round_trip(s: Seq<char>, rest: Seq<char>)
    ensures
        parse_str_body(escape_str(s) + seq!['"'] + rest) == Some::<(Seq<char>, Seq<char>)>(
            (s, rest),
        ),
    decreases s.len(),
{
    let whole = escape_str(s) + seq!['"'] + rest;
    if s.len() == 0 {
        assert(whole =~= seq!['"'] + rest);
        assert(whole.first() == '"');
        assert(whole.drop_first() =~= rest);
    } else {
        lemma_string_round_trip(s.drop_first(), rest);
        let tail = escape_str(s.drop_first()) + seq!['"'] + rest;
        if s.first() == '"' || s.first() == '\\' {
            assert(whole =~= seq!['\\', s.first()] + tail);
            assert(whole.first() == '\\');
            assert(whole.len() >= 2);
            assert(whole.skip(2) =~= tail);
            assert(whole[1] == s.first());
            assert(seq![whole[1]] + s.drop_first() =~= s);
        } else {
            assert(whole =~= seq![s.first()] + tail);
            assert(whole.first() == s.first());
            assert(whole.first() != '"' && whole.first() != '\\');
            assert(whole.drop_first() =~= tail);
            assert(seq![whole.first()] + s.drop_first() =~= s);
        }
    }
}

/// Renders a string with quotes and escapes, appending to `out`.
fn append_rendered_string(out: &mut String, s: &str)
    ensures
        final(out)@ == old(out)@ + render_string(s@),
{
    let ghost start = old(out)@;
    out.append("\"");
    proof {
        reveal_strlit("\"");
        assert(out@ =~= start + seq!['"']);
    }
    let n = s.unicode_len();
    let mut k: usize = 0;
    while k < n
        invariant
            0 <= k <= n,
            n == s@.len(),
            out@ == start + seq!['"'] + escape_str(s@.take(k as int)),
        decreases n - k,
    {
        let ghost before = out@;
        let c = s.get_char(k);
        if c == '"' {
            out.append("\\\"");
            proof {
                reveal_strlit("\\\"");
                assert(out@ =~= before + seq!['\\', '"']);
            }
        } else if c == '\\' {
            out.append("\\\\");
            proof {
                reveal_strlit("\\\\");
                assert(out@ =~= before + seq!['\\', '\\']);
            }
        } else {
            let piece = s.substring_char(k, k + 1);
            out.append(piece);
            proof {
                assert(piece@ =~= seq![s@[k as int]]);
            }
        }
        proof {
            lemma_escape_take_succ(s@, k as int);
            assert(out@ =~= start + seq!['"'] + escape_str(s@.take(k as int + 1)));
        }
        k += 1;
    }
    out.append("\"");
    proof {
        reveal_strlit("\"");
        assert(s@.take(n as int) =~= s@);
        assert(out@ =~= start + render_string(s@));
    }
}

proof fn lemma_escape_take_succ(s: Seq<char>, k: int)
    requires
        0 <= k < s.len(),
    ensures
        escape_str(s.take(k + 1)) == escape_str(s.take(k)) + (if s[k] == '"' || s[k] == '\\' {
            seq!['\\', s[k]]
        } else {
            seq![s[k]]
        }),
    decreases k,
{
    if k == 0 {
        assert(s.take(1) =~= seq![s[0]]);
        assert(s.take(1).drop_first() =~= Seq::<char>::empty());
        assert(s.take(0) =~= Seq::<char>::empty());
        assert(escape_str(s.take(1)) =~= escape_str(s.take(0)) + (if s[0] == '"' || s[0] == '\\' {
            seq!['\\', s[0]]
        } else {
            seq![s[0]]
        }));
    } else {
        lemma_escape_take_succ(s.drop_first(), k - 1);
        assert(s.take(k + 1).drop_first() =~= s.drop_first().take(k));
        assert(s.take(k).drop_first() =~= s.drop_first().take(k - 1));
        assert(s.take(k + 1).first() == s[0]);
        assert(s.take(k).first() == s[0]);
        assert(s.drop_first()[k - 1] == s[k]);
        assert(escape_str(s.take(k + 1)) =~= escape_str(s.take(k)) + (if s[k] == '"' || s[k]
            == '\\' {
            seq!['\\', s[k]]
        } else {
            seq![s[k]]
        }));
    }
}

/// Parses a quoted string (after the opening quote was already consumed),
/// returning the contents and the remainder after the closing quote.
#[verifier::rlimit(100)]
#[verifier::spinoff_prover]
fn parse_string_body<'a>(s: &'a str) -> (r: Option<(String, &'a str)>)
    ensures
        match r {
            Some((v, rest)) => parse_str_body(s@) == Some::<(Seq<char>, Seq<char>)>(
                (v@, rest@),
            ),
            None => parse_str_body(s@) is None,
        },
{
    let n = s.unicode_len();
    let mut out = String::new();
    let mut k: usize = 0;
    proof {
        assert(s@.skip(0) =~= s@);
        lemma_parse_body_assoc();
        assert forall|body: Seq<char>| #[trigger] (out@ + body) == body by {
            assert(out@ + body =~= body);
        }
    }
    while k < n
        invariant
            0 <= k <= n,
            n == s@.len(),
            parse_str_body(s@) == match parse_str_body(s@.skip(k as int)) {
                Some((body, rest)) => Some::<(Seq<char>, Seq<char>)>((out@ + body, rest)),
                None => None::<(Seq<char>, Seq<char>)>,
            },
        decreases n - k,
    {
        let c = s.get_char(k);
        let ghost cur = s@.skip(k as int);
        proof {
            assert(cur.first() == s@[k as int]);
            assert(cur.drop_first() =~= s@.skip(k as int + 1));
        }
        if c == '"' {
            let rest = s.substring_char(k + 1, n);
            proof {
                assert(rest@ =~= s@.skip(k as int + 1));
                assert(out@ + Seq::<char>::empty() =~= out@);
            }
            return Some((out, rest));
        } else if c == '\\' {
            if k + 1 < n {
                let piece = s.substring_char(k + 1, k + 2);
                out.append(piece);
                proof {
                    assert(piece@ =~= seq![s@[k as int + 1]]);
                    assert(cur.len() >= 2);
                    assert(cur[1] == s@[k as int + 1]);
                    assert(cur.skip(2) =~= s@.skip(k as int + 2));
                }
                k += 2;
                proof {
                    assert forall|body: Seq<char>| true implies out@ + body == out@ + body by {}
                }
            } else {
                proof {
                    assert(cur.len() == 1);
                    assert(parse_str_body(s@) is None);
                }
                return None;
            }
        } else {
            let piece = s.substring_char(k, k + 1);
            out.append(piece);
            proof {
                assert(piece@ =~= seq![s@[k as int]]);
            }
            k += 1;
        }
        proof {
            // Reassociate the accumulated prefix with the recursive spec.
            lemma_parse_body_assoc();
        }
    }
    proof {
        assert(s@.skip(n as int) =~= Seq::<char>::empty());
        assert(parse_str_body(Seq::<char>::empty()) is None);
    }
    None
}

/// Sequence concatenation associates; stated once so the parser's loop can
/// re-group its accumulated prefix.
proof fn lemma_parse_body_assoc()
    ensures
        forall|a: Seq<char>, b: Seq<char>, c: Seq<char>| #[trigger] ((a + b) + c) == a + (b + c),
{
    assert forall|a: Seq<char>, b: Seq<char>, c: Seq<char>| #[trigger] ((a + b) + c) == a + (b
        + c) by {
        assert((a + b) + c =~= a + (b + c));
    }
}

// ---------------------------------------------------------------------------
// Numbers.
// ---------------------------------------------------------------------------

/// How many decimal digits start `s`.
pub open spec fn digit_count(s: Seq<char>) -> int
    decreases s.len(),
{
    if s.len() == 0 || !is_digit_char(s.first()) {
        0
    } else {
        1 + digit_count(s.drop_first())
    }
}

/// The numeric value of a digit character.
pub open spec fn digit_value(c: char) -> int {
    c as int - '0' as int
}

/// The value of the first `k` characters of `s` read as decimal digits.
pub open spec fn digits_value(s: Seq<char>, k: int) -> int
    decreases k,
{
    if k <= 0 {
        0
    } else {
        digits_value(s, k - 1) * 10 + digit_value(s[k - 1])
    }
}

/// Parses an unsigned decimal number that fits the machine's integer range.
pub open spec fn spec_parse_usize(s: Seq<char>) -> Option<(int, Seq<char>)> {
    let k = digit_count(s);
    if k == 0 {
        None
    } else if digits_value(s, k) > usize::MAX {
        None
    } else {
        Some((digits_value(s, k), s.skip(k)))
    }
}

proof fn lemma_digit_count_exact(s: Seq<char>, k: int)
    requires
        0 <= k <= s.len(),
        forall|j: int| 0 <= j < k ==> is_digit_char(#[trigger] s[j]),
        k == s.len() || !is_digit_char(s[k]),
    ensures
        digit_count(s) == k,
    decreases k,
{
    if k == 0 {
    } else {
        assert(is_digit_char(s.first()));
        assert(forall|j: int|
            0 <= j < s.drop_first().len() ==> (#[trigger] s.drop_first()[j]) == s[j + 1]);
        lemma_digit_count_exact(s.drop_first(), k - 1);
    }
}

proof fn lemma_digits_value_prefix(s1: Seq<char>, s2: Seq<char>, k: int)
    requires
        0 <= k <= s1.len(),
        k <= s2.len(),
        forall|j: int| 0 <= j < k ==> #[trigger] s1[j] == s2[j],
    ensures
        digits_value(s1, k) == digits_value(s2, k),
    decreases k,
{
    if k > 0 {
        lemma_digits_value_prefix(s1, s2, k - 1);
    }
}

/// The canonical decimal rendering consists of digits and reads back to its
/// value.
pub proof fn lemma_dec_str_digits(n: int)
    requires
        n >= 0,
    ensures
        dec_str(n).len() >= 1,
        forall|j: int| 0 <= j < dec_str(n).len() ==> is_digit_char(#[trigger] dec_str(n)[j]),
        digits_value(dec_str(n), dec_str(n).len() as int) == n,
    decreases n,
{
    if n <= 9 {
        assert(dec_str(n) =~= seq![dec_digit(n)]);
        assert(is_digit_char(dec_digit(n)));
        assert(digit_value(dec_digit(n)) == n);
        assert(digits_value(dec_str(n), 0) == 0);
        assert(digits_value(dec_str(n), 1) == digits_value(dec_str(n), 0) * 10 + digit_value(
            dec_str(n)[0],
        ));
    } else {
        lemma_dec_str_digits(n / 10);
        let prev = dec_str(n / 10);
        let whole = prev.push(dec_digit(n % 10));
        assert(dec_str(n) == whole);
        assert(whole.len() == prev.len() + 1);
        assert forall|j: int| 0 <= j < whole.len() implies is_digit_char(#[trigger] whole[j]) by {
            if j < prev.len() {
                assert(whole[j] == prev[j]);
                assert(is_digit_char(prev[j]));
            } else {
                assert(whole[j] == dec_digit(n % 10));
            }
        }
        assert(forall|j: int| 0 <= j < prev.len() ==> #[trigger] whole[j] == prev[j]);
        assert(whole[whole.len() - 1] == dec_digit(n % 10));
        assert(is_digit_char(dec_digit(n % 10)));
        lemma_digits_value_prefix(whole, prev, prev.len() as int);
        assert(digits_value(whole, prev.len() as int) == n / 10);
        assert(digits_value(whole, whole.len() as int) == digits_value(whole, prev.len() as int)
            * 10 + digit_value(whole[whole.len() - 1]));
        assert(digit_value(dec_digit(n % 10)) == n % 10);
        assert(digits_value(whole, whole.len() as int) == (n / 10) * 10 + n % 10);
        assert((n / 10) * 10 + n % 10 == n);
    }
}

/// A rendered number parses back to its value, whatever non-digit text
/// follows it.
pub proof fn lemma_usize_round_trip(n: int, rest: Seq<char>)
    requires
        0 <= n <= usize::MAX,
        rest.len() == 0 || !is_digit_char(rest[0]),
    ensures
        spec_parse_usize(dec_str(n) + rest) == Some::<(int, Seq<char>)>((n, rest)),
{
    let ds = dec_str(n);
    let whole = ds + rest;
    lemma_dec_str_digits(n);
    assert(forall|j: int| 0 <= j < ds.len() ==> #[trigger] whole[j] == ds[j]);
    lemma_digit_count_exact(whole, ds.len() as int);
    lemma_digits_value_prefix(whole, ds, ds.len() as int);
    assert(whole.skip(ds.len() as int) =~= rest);
}

/// Parses an unsigned decimal number from the front of `s`.
fn parse_usize_front<'a>(s: &'a str) -> (r: Option<(usize, &'a str)>)
    ensures
        match r {
            Some((v, rest)) => spec_parse_usize(s@) == Some::<(int, Seq<char>)>(
                (v as int, rest@),
            ),
            None => spec_parse_usize(s@) is None,
        },
{
    let n = s.unicode_len();
    let mut k: usize = 0;
    let mut v: usize = 0;
    let mut overflowed = false;
    while k < n
        invariant_except_break
            !overflowed,
            v == digits_value(s@, k as int),
            v <= usize::MAX,
        invariant
            0 <= k <= n,
            n == s@.len(),
            forall|j: int| 0 <= j < k ==> is_digit_char(#[trigger] s@[j]),
        ensures
            0 <= k <= n,
            n == s@.len(),
            forall|j: int| 0 <= j < k ==> is_digit_char(#[trigger] s@[j]),
            !overflowed ==> v == digits_value(s@, k as int) && v <= usize::MAX && (k == n
                || !is_digit_char(s@[k as int])),
            overflowed ==> k < n && is_digit_char(s@[k as int]) && digits_value(s@, k as int + 1)
                > usize::MAX,
        decreases n - k,
    {
        let c = s.get_char(k);
        if !('0' <= c && c <= '9') {
            break;
        }
        let d = (c as u32 - 48) as usize;
        proof {
            assert(is_digit_char(s@[k as int]));
            assert(d == digit_value(s@[k as int]));
        }
        if v > (usize::MAX - d) / 10 {
            proof {
                assert(v * 10 + d > usize::MAX) by (nonlinear_arith)
                    requires
                        v > (usize::MAX - d) / 10,
                        0 <= d <= 9,
                        v >= 0,
                ;
            }
            overflowed = true;
            proof {
                assert(digits_value(s@, k as int + 1) == v * 10 + d);
            }
            break;
        }
        proof {
            assert(v * 10 + d <= usize::MAX) by (nonlinear_arith)
                requires
                    v <= (usize::MAX - d) / 10,
                    0 <= d <= 9,
                    v >= 0,
            ;
        }
        v = v * 10 + d;
        k += 1;
    }
    if overflowed {
        // The digits overflow the machine's range; so does the full digit
        // prefix.
        proof {
            lemma_digits_overflow(s@, k as int + 1);
            if digit_count(s@) != 0 {
                assert(digit_count(s@) >= k + 1) by {
                    lemma_digit_count_at_least(s@, k as int + 1);
                }
                assert(spec_parse_usize(s@) is None);
            }
        }
        return None;
    }
    if k == 0 {
        proof {
            if s@.len() > 0 {
                assert(!is_digit_char(s@[0]));
            }
        }
        return None;
    }
    proof {
        lemma_digit_count_exact(s@, k as int);
    }
    let rest = s.substring_char(k, n);
    proof {
        assert(rest@ =~= s@.skip(k as int));
    }
    Some((v, rest))
}

/// Once a digit prefix exceeds the machine range, every longer prefix does.
proof fn lemma_digits_overflow(s: Seq<char>, k: int)
    requires
        0 <= k <= s.len(),
        digits_value(s, k) > usize::MAX,
        forall|j: int| 0 <= j < k ==> is_digit_char(#[trigger] s[j]),
    ensures
        digit_count(s) >= k ==> digits_value(s, digit_count(s)) > usize::MAX,
{
    lemma_digit_count_le_len(s);
    if digit_count(s) >= k {
        lemma_digits_grow(s, k, digit_count(s));
    }
}

proof fn lemma_digit_count_at_least(s: Seq<char>, k: int)
    requires
        0 <= k <= s.len(),
        forall|j: int| 0 <= j < k ==> is_digit_char(#[trigger] s[j]),
    ensures
        digit_count(s) >= k,
    decreases k,
{
    if k > 0 {
        assert(is_digit_char(s.first()));
        assert(forall|j: int|
            0 <= j < s.drop_first().len() ==> (#[trigger] s.drop_first()[j]) == s[j + 1]);
        assert(forall|j: int|
            0 <= j < k - 1 ==> is_digit_char(#[trigger] s.drop_first()[j]));
        lemma_digit_count_at_least(s.drop_first(), k - 1);
        assert(digit_count(s) == 1 + digit_count(s.drop_first()));
    } else {
        lemma_digit_count_le_len(s);
    }
}

proof fn lemma_digit_count_le_len(s: Seq<char>)
    ensures
        0 <= digit_count(s) <= s.len(),
        forall|j: int| 0 <= j < digit_count(s) ==> is_digit_char(#[trigger] s[j]),
    decreases s.len(),
{
    if s.len() > 0 && is_digit_char(s.first()) {
        lemma_digit_count_le_len(s.drop_first());
        assert(digit_count(s) == 1 + digit_count(s.drop_first()));
        assert(forall|j: int|
            0 <= j < s.drop_first().len() ==> (#[trigger] s.drop_first()[j]) == s[j + 1]);
        assert forall|j: int| 0 < j < digit_count(s) implies is_digit_char(#[trigger] s[j]) by {
            assert(is_digit_char(s.drop_first()[j - 1]));
        }
    }
}

proof fn lemma_digits_nonneg(s: Seq<char>, k: int)
    requires
        0 <= k,
        forall|j: int| 0 <= j < k ==> is_digit_char(#[trigger] s[j]),
        k <= s.len(),
    ensures
        digits_value(s, k) >= 0,
    decreases k,
{
    if k > 0 {
        lemma_digits_nonneg(s, k - 1);
        let prev = digits_value(s, k - 1);
        assert(digit_value(s[k - 1]) >= 0);
        assert(prev * 10 >= prev) by (nonlinear_arith)
            requires
                prev >= 0,
        ;
    }
}

proof fn lemma_digits_grow(s: Seq<char>, k1: int, k2: int)
    requires
        0 <= k1 <= k2 <= s.len(),
        forall|j: int| 0 <= j < k2 ==> is_digit_char(#[trigger] s[j]),
    ensures
        digits_value(s, k2) >= digits_value(s, k1),
    decreases k2 - k1,
{
    if k1 < k2 {
        lemma_digits_grow(s, k1, k2 - 1);
        lemma_digits_nonneg(s, k2 - 1);
        let prev = digits_value(s, k2 - 1);
        assert(digit_value(s[k2 - 1]) >= 0);
        assert(prev * 10 >= prev) by (nonlinear_arith)
            requires
                prev >= 0,
        ;
    }
}


// ---------------------------------------------------------------------------
// Quoted values and optional fields.
// ---------------------------------------------------------------------------

/// Parses a quoted string: an opening quote, the body, the closing quote.
pub open spec fn spec_parse_quoted(s: Seq<char>) -> Option<(Seq<char>, Seq<char>)> {
    if s.len() >= 1 && s.first() == '"' {
        parse_str_body(s.skip(1))
    } else {
        None
    }
}

pub proof fn lemma_quoted_round_trip(x: Seq<char>, rest: Seq<char>)
    ensures
        spec_parse_quoted(render_string(x) + rest) == Some::<(Seq<char>, Seq<char>)>((x, rest)),
{
    let whole = render_string(x) + rest;
    assert(whole.first() == '"');
    assert(whole.skip(1) =~= escape_str(x) + seq!['"'] + rest);
    lemma_string_round_trip(x, rest);
}

fn parse_quoted<'a>(s: &'a str) -> (r: Option<(String, &'a str)>)
    ensures
        match r {
            Some((v, rest)) => spec_parse_quoted(s@) == Some::<(Seq<char>, Seq<char>)>(
                (v@, rest@),
            ),
            None => spec_parse_quoted(s@) is None,
        },
{
    let n = s.unicode_len();
    if n == 0 {
        return None;
    }
    if s.get_char(0) != '"' {
        return None;
    }
    let body = s.substring_char(1, n);
    proof {
        assert(body@ =~= s@.skip(1));
    }
    parse_string_body(body)
}

/// Renders an optional string: `null` or the quoted string.
pub open spec fn render_opt_string(o: Option<Seq<char>>) -> Seq<char> {
    match o {
        Some(x) => render_string(x),
        None => "null"@,
    }
}

pub open spec fn spec_parse_opt_string(s: Seq<char>) -> Option<
    (Option<Seq<char>>, Seq<char>),
> {
    match spec_parse_lit(s, "null"@) {
        Some(rest) => Some((None, rest)),
        None => match spec_parse_quoted(s) {
            Some((v, rest)) => Some((Some(v), rest)),
            None => None,
        },
    }
}

pub proof fn lemma_opt_string_round_trip(o: Option<Seq<char>>, rest: Seq<char>)
    ensures
        spec_parse_opt_string(render_opt_string(o) + rest) == Some::<
            (Option<Seq<char>>, Seq<char>),
        >((o, rest)),
{
    reveal_strlit("null");
    match o {
        None => {
            lemma_parse_lit_prepend("null"@, rest);
        },
        Some(x) => {
            let whole = render_string(x) + rest;
            assert(whole.first() == '"');
            assert(spec_parse_lit(whole, "null"@) is None) by {
                if whole.len() >= 4 {
                    assert(whole.take(4)[0] == '"');
                }
            }
            lemma_quoted_round_trip(x, rest);
        },
    }
}

fn append_opt_string(out: &mut String, o: &Option<String>)
    ensures
        final(out)@ == old(out)@ + render_opt_string(crate::model::opt_view(*o)),
{
    match o {
        Some(x) => append_rendered_string(out, x.as_str()),
        None => {
            out.append("null");
        },
    }
}

fn parse_opt_string<'a>(s: &'a str) -> (r: Option<(Option<String>, &'a str)>)
    ensures
        match r {
            Some((v, rest)) => spec_parse_opt_string(s@) == Some::<
                (Option<Seq<char>>, Seq<char>),
            >((crate::model::opt_view(v), rest@)),
            None => spec_parse_opt_string(s@) is None,
        },
{
    match parse_lit(s, "null") {
        Some(rest) => Some((None, rest)),
        None => match parse_quoted(s) {
            Some((v, rest)) => Some((Some(v), rest)),
            None => None,
        },
    }
}

/// Renders an optional signed port number: `null` or a decimal.
pub open spec fn render_opt_i32(o: Option<i32>) -> Seq<char> {
    match o {
        Some(v) => if v >= 0 {
            dec_str(v as int)
        } else {
            seq!['-'] + dec_str(-(v as int))
        },
        None => "null"@,
    }
}

pub open spec fn spec_parse_opt_i32(s: Seq<char>) -> Option<(Option<i32>, Seq<char>)> {
    match spec_parse_lit(s, "null"@) {
        Some(rest) => Some((None, rest)),
        None => if s.len() >= 1 && s.first() == '-' {
            match spec_parse_usize(s.skip(1)) {
                Some((v, rest)) => if 0 < v <= 0x8000_0000 {
                    Some((Some((-v) as i32), rest))
                } else {
                    None
                },
                None => None,
            }
        } else {
            match spec_parse_usize(s) {
                Some((v, rest)) => if v <= 0x7fff_ffff {
                    Some((Some(v as i32), rest))
                } else {
                    None
                },
                None => None,
            }
        },
    }
}

pub proof fn lemma_opt_i32_round_trip(o: Option<i32>, rest: Seq<char>)
    requires
        rest.len() == 0 || !is_digit_char(rest[0]),
    ensures
        spec_parse_opt_i32(render_opt_i32(o) + rest) == Some::<(Option<i32>, Seq<char>)>(
            (o, rest),
        ),
{
    reveal_strlit("null");
    match o {
        None => {
            lemma_parse_lit_prepend("null"@, rest);
        },
        Some(v) => {
            if v >= 0 {
                let whole = dec_str(v as int) + rest;
                lemma_dec_str_digits(v as int);
                assert(whole.first() == dec_str(v as int)[0]);
                assert(is_digit_char(whole.first()));
                assert(spec_parse_lit(whole, "null"@) is None) by {
                    if whole.len() >= 4 {
                        assert(whole.take(4)[0] == whole.first());
                    }
                }
                assert(whole.first() != '-');
                lemma_usize_round_trip(v as int, rest);
            } else {
                let m = -(v as int);
                let whole = seq!['-'] + dec_str(m) + rest;
                assert(whole =~= (seq!['-'] + dec_str(m)) + rest);
                assert(whole.first() == '-');
                assert(spec_parse_lit(whole, "null"@) is None) by {
                    if whole.len() >= 4 {
                        assert(whole.take(4)[0] == '-');
                    }
                }
                assert(whole.skip(1) =~= dec_str(m) + rest);
                lemma_usize_round_trip(m, rest);
                assert(0 < m <= 0x8000_0000);
            }
        },
    }
}

fn append_opt_i32(out: &mut String, o: &Option<i32>)
    ensures
        final(out)@ == old(out)@ + render_opt_i32(*o),
{
    match o {
        Some(v) => {
            let v = *v;
            if v >= 0 {
                let t = usize_to_string(v as usize);
                out.append(t.as_str());
            } else {
                let ghost before = out@;
                out.append("-");
                proof {
                    reveal_strlit("-");
                    assert(out@ =~= before + seq!['-']);
                }
                let m = -(v as i64);
                let t = usize_to_string(m as usize);
                out.append(t.as_str());
                proof {
                    assert(out@ =~= before + (seq!['-'] + dec_str(m as int)));
                }
            }
        },
        None => {
            out.append("null");
        },
    }
}

fn parse_opt_i32_front<'a>(s: &'a str) -> (r: Option<(Option<i32>, &'a str)>)
    ensures
        match r {
            Some((v, rest)) => spec_parse_opt_i32(s@) == Some::<(Option<i32>, Seq<char>)>(
                (v, rest@),
            ),
            None => spec_parse_opt_i32(s@) is None,
        },
{
    match parse_lit(s, "null") {
        Some(rest) => Some((None, rest)),
        None => {
            let n = s.unicode_len();
            if n >= 1 && s.get_char(0) == '-' {
                let tail = s.substring_char(1, n);
                proof {
                    assert(tail@ =~= s@.skip(1));
                }
                match parse_usize_front(tail) {
                    Some((v, rest)) => {
                        if 0 < v && v <= 0x8000_0000usize {
                            Some((Some((-(v as i64)) as i32), rest))
                        } else {
                            None
                        }
                    },
                    None => None,
                }
            } else {
                match parse_usize_front(s) {
                    Some((v, rest)) => {
                        if v <= 0x7fff_ffffusize {
                            Some((Some(v as i32), rest))
                        } else {
                            None
                        }
                    },
                    None => None,
                }
            }
        },
    }
}


// ---------------------------------------------------------------------------
// Enums, rendered as their canonical display strings.
// ---------------------------------------------------------------------------

/// The image a canonical display string denotes.
pub open spec fn image_from_display(s: Seq<char>) -> Option<Image> {
    if s == "centos:7"@ {
        Some(Image::CentOS7)
    } else if s == "centos:8"@ {
        Some(Image::CentOS8)
    } else if s == "centos:9-Stream"@ {
        Some(Image::CentOS9Stream)
    } else if s == "ubuntu:20.04"@ {
        Some(Image::Ubuntu2004)
    } else if s == "ubuntu:22.04"@ {
        Some(Image::Ubuntu2204)
    } else {
        None
    }
}

pub proof fn lemma_image_display_parses(v: Image)
    ensures
        image_from_display(image_display(v)) == Some(v),
{
    reveal_strlit("centos:7");
    reveal_strlit("centos:8");
    reveal_strlit("centos:9-Stream");
    reveal_strlit("ubuntu:20.04");
    reveal_strlit("ubuntu:22.04");
    assert(("centos:8"@)[7] != ("centos:7"@)[7]);
    assert("centos:8"@ != "centos:7"@);
    assert(("ubuntu:22.04"@)[8] != ("ubuntu:20.04"@)[8]);
    assert("ubuntu:22.04"@ != "ubuntu:20.04"@);
}

fn image_from_display_exec(s: &String) -> (r: Option<Image>)
    ensures
        r == image_from_display(s@),
{
    if crate::text::string_eq_str(s, "centos:7") {
        Some(Image::CentOS7)
    } else if crate::text::string_eq_str(s, "centos:8") {
        Some(Image::CentOS8)
    } else if crate::text::string_eq_str(s, "centos:9-Stream") {
        Some(Image::CentOS9Stream)
    } else if crate::text::string_eq_str(s, "ubuntu:20.04") {
        Some(Image::Ubuntu2004)
    } else if crate::text::string_eq_str(s, "ubuntu:22.04") {
        Some(Image::Ubuntu2204)
    } else {
        None
    }
}

/// The runtime a canonical display string denotes.
pub open spec fn runtime_from_display(s: Seq<char>) -> Option<Runtime> {
    if s == "kata"@ {
        Some(Runtime::Kata)
    } else if s == "runc"@ {
        Some(Runtime::Runc)
    } else if s == "lxc"@ {
        Some(Runtime::Lxc)
    } else if s == "kvm"@ {
        Some(Runtime::Kvm)
    } else {
        None
    }
}

pub proof fn lemma_runtime_display_parses(v: Runtime)
    ensures
        runtime_from_display(runtime_display(v)) == Some(v),
{
    reveal_strlit("kata");
    reveal_strlit("runc");
    reveal_strlit("lxc");
    reveal_strlit("kvm");
    assert(("runc"@)[0] != ("kata"@)[0]);
    assert("runc"@ != "kata"@);
    assert(("lxc"@).len() != ("kata"@).len());
    assert("lxc"@ != "kata"@ && "lxc"@ != "runc"@);
    assert(("kvm"@).len() != ("kata"@).len());
    assert("kvm"@ != "kata"@ && "kvm"@ != "runc"@);
    assert(("kvm"@)[0] != ("lxc"@)[0]);
    assert("kvm"@ != "lxc"@);
}

fn runtime_from_display_exec(s: &String) -> (r: Option<Runtime>)
    ensures
        r == runtime_from_display(s@),
{
    if crate::text::string_eq_str(s, "kata") {
        Some(Runtime::Kata)
    } else if crate::text::string_eq_str(s, "runc") {
        Some(Runtime::Runc)
    } else if crate::text::string_eq_str(s, "lxc") {
        Some(Runtime::Lxc)
    } else if crate::text::string_eq_str(s, "kvm") {
        Some(Runtime::Kvm)
    } else {
        None
    }
}

pub proof fn lemma_stage_display_parses(v: InstanceStage)
    ensures
        crate::catalog::spec_stage_of(crate::catalog::stage_display(v)) == Some(v),
{
    reveal_strlit("Stopped");
    reveal_strlit("Running");
    reveal_strlit("Deleted");
    assert(("Running"@)[0] != ("Stopped"@)[0]);
    assert("Running"@ != "Stopped"@);
    assert(("Deleted"@)[0] != ("Stopped"@)[0]);
    assert("Deleted"@ != "Stopped"@);
    assert(("Deleted"@)[0] != ("Running"@)[0]);
    assert("Deleted"@ != "Running"@);
}

pub proof fn lemma_status_display_parses(v: StatusView)
    ensures
        crate::catalog::spec_status_of(crate::catalog::status_display(v)) == Some(v),
{
    reveal_strlit("Creating");
    reveal_strlit("Starting");
    reveal_strlit("Running");
    reveal_strlit("Stopping");
    reveal_strlit("Stopped");
    reveal_strlit("Deleting");
    reveal_strlit("Missing");
    reveal_strlit("Error: ");
    assert(("Starting"@)[0] != ("Creating"@)[0]);
    assert("Starting"@ != "Creating"@);
    assert(("Stopping"@)[2] != ("Creating"@)[2]);
    assert("Stopping"@ != "Creating"@);
    assert(("Stopping"@)[2] != ("Starting"@)[2]);
    assert("Stopping"@ != "Starting"@);
    assert(("Stopped"@)[0] != ("Running"@)[0]);
    assert("Stopped"@ != "Running"@);
    assert(("Deleting"@)[0] != ("Creating"@)[0]);
    assert("Deleting"@ != "Creating"@);
    assert(("Deleting"@)[0] != ("Starting"@)[0]);
    assert("Deleting"@ != "Starting"@);
    assert(("Deleting"@)[0] != ("Stopping"@)[0]);
    assert("Deleting"@ != "Stopping"@);
    assert(("Missing"@)[0] != ("Running"@)[0]);
    assert("Missing"@ != "Running"@);
    assert(("Missing"@)[0] != ("Stopped"@)[0]);
    assert("Missing"@ != "Stopped"@);
    match v {
        StatusView::Creating => {
            assert(crate::catalog::status_display(v) == "Creating"@);
            assert(crate::catalog::spec_status_of("Creating"@) == Some(StatusView::Creating));
            assert(crate::catalog::spec_status_of(crate::catalog::status_display(v)) == Some(v));
        },
        StatusView::Starting => {
            assert(crate::catalog::status_display(v) == "Starting"@);
            assert(crate::catalog::spec_status_of("Starting"@) == Some(StatusView::Starting));
            assert(crate::catalog::spec_status_of(crate::catalog::status_display(v)) == Some(v));
        },
        StatusView::Running => {
            assert(crate::catalog::status_display(v) == "Running"@);
            assert(crate::catalog::spec_status_of("Running"@) == Some(StatusView::Running));
            assert(crate::catalog::spec_status_of(crate::catalog::status_display(v)) == Some(v));
        },
        StatusView::Stopping => {
            assert(crate::catalog::status_display(v) == "Stopping"@);
            assert(crate::catalog::spec_status_of("Stopping"@) == Some(StatusView::Stopping));
            assert(crate::catalog::spec_status_of(crate::catalog::status_display(v)) == Some(v));
        },
        StatusView::Stopped => {
            assert(crate::catalog::status_display(v) == "Stopped"@);
            assert(crate::catalog::spec_status_of("Stopped"@) == Some(StatusView::Stopped));
            assert(crate::catalog::spec_status_of(crate::catalog::status_display(v)) == Some(v));
        },
        StatusView::Deleting => {
            assert(crate::catalog::status_display(v) == "Deleting"@);
            assert(crate::catalog::spec_status_of("Deleting"@) == Some(StatusView::Deleting));
            assert(crate::catalog::spec_status_of(crate::catalog::status_display(v)) == Some(v));
        },
        StatusView::Missing => {
            assert(crate::catalog::status_display(v) == "Missing"@);
            assert(crate::catalog::spec_status_of("Missing"@) == Some(StatusView::Missing));
            assert(crate::catalog::spec_status_of(crate::catalog::status_display(v)) == Some(v));
        },
        StatusView::Error(m) => {
            let d = crate::catalog::status_display(v);
            assert(d =~= "Error: "@ + m);
            assert(d.len() >= 7);
            assert(d[0] == 'E');
            assert(d != "Creating"@ && d != "Starting"@ && d != "Running"@ && d != "Stopping"@
                && d != "Stopped"@ && d != "Deleting"@ && d != "Missing"@) by {
                assert(("Creating"@)[0] != 'E');
                assert(("Starting"@)[0] != 'E');
                assert(("Running"@)[0] != 'E');
                assert(("Stopping"@)[0] != 'E');
                assert(("Stopped"@)[0] != 'E');
                assert(("Deleting"@)[0] != 'E');
                assert(("Missing"@)[0] != 'E');
            }
            assert(d.take(7) =~= "Error: "@);
            assert(d.skip(7) =~= m);
            assert(crate::catalog::spec_status_of(crate::catalog::status_display(v)) == Some(v));
        },
    }
}


// ---------------------------------------------------------------------------
// Structures.
// ---------------------------------------------------------------------------

/// Renders a number field value.
pub open spec fn render_usize(v: int) -> Seq<char> {
    dec_str(v)
}

pub proof fn lemma_lit_starts_nondigit(lit: Seq<char>, rest: Seq<char>)
    requires
        lit.len() > 0,
        !is_digit_char(lit[0]),
    ensures
        (lit + rest).len() > 0,
        !is_digit_char((lit + rest)[0]),
{
    assert((lit + rest)[0] == lit[0]);
}

/// A storage pool as one JSON object.
pub open spec fn render_pool(v: StoragePoolView) -> Seq<char> {
    "{\"name\":"@ + render_string(v.name) + ",\"total\":"@ + render_usize(v.total)
        + ",\"used\":"@ + render_usize(v.used) + ",\"allocated\":"@ + render_usize(v.allocated)
        + "}"@
}

pub open spec fn spec_parse_pool(s: Seq<char>) -> Option<(StoragePoolView, Seq<char>)> {
    match spec_parse_lit(s, "{\"name\":"@) {
        None => None,
        Some(s1) => match spec_parse_quoted(s1) {
            None => None,
            Some((name, s2)) => match spec_parse_lit(s2, ",\"total\":"@) {
                None => None,
                Some(s3) => match spec_parse_usize(s3) {
                    None => None,
                    Some((total, s4)) => match spec_parse_lit(s4, ",\"used\":"@) {
                        None => None,
                        Some(s5) => match spec_parse_usize(s5) {
                            None => None,
                            Some((used, s6)) => match spec_parse_lit(s6, ",\"allocated\":"@) {
                                None => None,
                                Some(s7) => match spec_parse_usize(s7) {
                                    None => None,
                                    Some((allocated, s8)) => match spec_parse_lit(s8, "}"@) {
                                        None => None,
                                        Some(s9) => Some(
                                            (
                                                StoragePoolView { name, total, used, allocated },
                                                s9,
                                            ),
                                        ),
                                    },
                                },
                            },
                        },
                    },
                },
            },
        },
    }
}

/// Number fields of a pool fit the machine's integers.
pub open spec fn pool_view_bounded(v: StoragePoolView) -> bool {
    &&& 0 <= v.total <= usize::MAX
    &&& 0 <= v.used <= usize::MAX
    &&& 0 <= v.allocated <= usize::MAX
}

pub proof fn lemma_pool_round_trip(v: StoragePoolView, rest: Seq<char>)
    requires
        pool_view_bounded(v),
    ensures
        spec_parse_pool(render_pool(v) + rest) == Some::<(StoragePoolView, Seq<char>)>(
            (v, rest),
        ),
{
    reveal_strlit("{\"name\":");
    reveal_strlit(",\"total\":");
    reveal_strlit(",\"used\":");
    reveal_strlit(",\"allocated\":");
    reveal_strlit("}");
    let t9 = rest;
    let t8 = "}"@ + t9;
    let t7 = render_usize(v.allocated) + t8;
    let t6 = ",\"allocated\":"@ + t7;
    let t5 = render_usize(v.used) + t6;
    let t4 = ",\"used\":"@ + t5;
    let t3 = render_usize(v.total) + t4;
    let t2 = ",\"total\":"@ + t3;
    let t1 = render_string(v.name) + t2;
    let t0 = "{\"name\":"@ + t1;
    assert(render_pool(v) + rest =~= t0);
    lemma_parse_lit_prepend("{\"name\":"@, t1);
    lemma_quoted_round_trip(v.name, t2);
    lemma_parse_lit_prepend(",\"total\":"@, t3);
    assert(!is_digit_char((",\"used\":"@)[0]));
    lemma_lit_starts_nondigit(",\"used\":"@, t5);
    lemma_usize_round_trip(v.total, t4);
    lemma_parse_lit_prepend(",\"used\":"@, t5);
    lemma_lit_starts_nondigit(",\"allocated\":"@, t7);
    lemma_usize_round_trip(v.used, t6);
    lemma_parse_lit_prepend(",\"allocated\":"@, t7);
    lemma_lit_starts_nondigit("}"@, t9);
    lemma_usize_round_trip(v.allocated, t8);
    lemma_parse_lit_prepend("}"@, t9);
}

/// Appends the rendering of a pool.
fn append_pool(out: &mut String, x: &StoragePool)
    ensures
        final(out)@ == old(out)@ + render_pool(x@),
{
    out.append("{\"name\":");
    append_rendered_string(out, x.name.as_str());
    out.append(",\"total\":");
    let t = usize_to_string(x.total);
    out.append(t.as_str());
    out.append(",\"used\":");
    let u = usize_to_string(x.used);
    out.append(u.as_str());
    out.append(",\"allocated\":");
    let a = usize_to_string(x.allocated);
    out.append(a.as_str());
    out.append("}");
    proof {
        assert(out@ =~= old(out)@ + render_pool(x@));
    }
}

/// Parses one pool object.
fn parse_pool<'a>(s: &'a str) -> (r: Option<(StoragePool, &'a str)>)
    ensures
        match r {
            Some((x, rest)) => spec_parse_pool(s@) == Some::<(StoragePoolView, Seq<char>)>(
                (x@, rest@),
            ),
            None => spec_parse_pool(s@) is None,
        },
{
    let s1 = match parse_lit(s, "{\"name\":") {
        Some(x) => x,
        None => {
            return None;
        },
    };
    let (name, s2) = match parse_quoted(s1) {
        Some(x) => x,
        None => {
            return None;
        },
    };
    let s3 = match parse_lit(s2, ",\"total\":") {
        Some(x) => x,
        None => {
            return None;
        },
    };
    let (total, s4) = match parse_usize_front(s3) {
        Some(x) => x,
        None => {
            return None;
        },
    };
    let s5 = match parse_lit(s4, ",\"used\":") {
        Some(x) => x,
        None => {
            return None;
        },
    };
    let (used, s6) = match parse_usize_front(s5) {
        Some(x) => x,
        None => {
            return None;
        },
    };
    let s7 = match parse_lit(s6, ",\"allocated\":") {
        Some(x) => x,
        None => {
            return None;
        },
    };
    let (allocated, s8) = match parse_usize_front(s7) {
        Some(x) => x,
        None => {
            return None;
        },
    };
    let s9 = match parse_lit(s8, "}") {
        Some(x) => x,
        None => {
            return None;
        },
    };
    Some((StoragePool { name, total, used, allocated }, s9))
}

/// One runtime in a list, as its quoted display string.
pub open spec fn render_runtime(v: Runtime) -> Seq<char> {
    render_string(runtime_display(v))
}

pub open spec fn spec_parse_runtime(s: Seq<char>) -> Option<(Runtime, Seq<char>)> {
    match spec_parse_quoted(s) {
        None => None,
        Some((body, rest)) => match runtime_from_display(body) {
            None => None,
            Some(v) => Some((v, rest)),
        },
    }
}

pub proof fn lemma_runtime_round_trip(v: Runtime, rest: Seq<char>)
    ensures
        spec_parse_runtime(render_runtime(v) + rest) == Some::<(Runtime, Seq<char>)>((v, rest)),
{
    lemma_quoted_round_trip(runtime_display(v), rest);
    lemma_runtime_display_parses(v);
}

fn append_runtime(out: &mut String, x: &Runtime)
    ensures
        final(out)@ == old(out)@ + render_runtime(*x),
{
    append_rendered_string(out, x.as_str());
}

fn parse_runtime<'a>(s: &'a str) -> (r: Option<(Runtime, &'a str)>)
    ensures
        match r {
            Some((x, rest)) => spec_parse_runtime(s@) == Some::<(Runtime, Seq<char>)>(
                (x, rest@),
            ),
            None => spec_parse_runtime(s@) is None,
        },
{
    let (body, rest) = match parse_quoted(s) {
        Some(x) => x,
        None => {
            return None;
        },
    };
    match runtime_from_display_exec(&body) {
        Some(v) => Some((v, rest)),
        None => None,
    }
}

proof fn lemma_render_runtime_head_helper(v: Runtime)
    ensures
        render_runtime(v).len() >= 1,
        render_runtime(v)[0] == '"',
{
    assert(render_runtime(v) =~= seq!['"'] + (escape_str(runtime_display(v)) + seq!['"']));
}

proof fn lemma_render_pool_head_helper(v: StoragePoolView)
    ensures
        render_pool(v).len() >= 1,
        render_pool(v)[0] == '{',
{
    reveal_strlit("{\"name\":");
    assert(render_pool(v)[0] == ("{\"name\":"@)[0]);
}

proof fn lemma_render_instance_head_helper(v: InstanceView)
    ensures
        render_instance(v).len() >= 1,
        render_instance(v)[0] == '{',
{
    reveal(render_instance);
    reveal_strlit("{\"name\":");
    assert(render_instance(v)[0] == ("{\"name\":"@)[0]);
}

proof fn lemma_render_user_head_helper(v: UserView)
    ensures
        render_user(v).len() >= 1,
        render_user(v)[0] == '{',
{
    reveal(render_user);
    reveal_strlit("{\"username\":");
    assert(render_user(v)[0] == ("{\"username\":"@)[0]);
}

proof fn lemma_render_node_head_helper(v: NodeView)
    ensures
        render_node(v).len() >= 1,
        render_node(v)[0] == '{',
{
    reveal(render_node);
    reveal_strlit("{\"name\":");
    assert(render_node(v)[0] == ("{\"name\":"@)[0]);
}

/// The items of a pool list, after the opening bracket: the items joined
/// by commas, then the closing bracket.
pub open spec fn render_pool_items(s: Seq<StoragePoolView>) -> Seq<char>
    decreases s.len(),
{
    if s.len() == 0 {
        seq![']']
    } else if s.len() == 1 {
        render_pool(s[0]) + seq![']']
    } else {
        render_pool(s[0]) + seq![','] + render_pool_items(s.drop_first())
    }
}

pub open spec fn spec_parse_pools(s: Seq<char>) -> Option<(Seq<StoragePoolView>, Seq<char>)>
    decreases s.len(),
{
    if s.len() == 0 {
        None
    } else if s.first() == ']' {
        Some((Seq::<StoragePoolView>::empty(), s.skip(1)))
    } else {
        match spec_parse_pool(s) {
            None => None,
            Some((v, r)) => if r.len() < s.len() {
                if r.len() >= 1 && r.first() == ',' {
                    match spec_parse_pools(r.skip(1)) {
                        None => None,
                        Some((vs, r2)) => Some((seq![v] + vs, r2)),
                    }
                } else if r.len() >= 1 && r.first() == ']' {
                    Some((seq![v], r.skip(1)))
                } else {
                    None
                }
            } else {
                None
            },
        }
    }
}

/// A rendered pool starts with `{`, never a bracket or comma.
proof fn lemma_render_pool_head(v: StoragePoolView)
    ensures
        render_pool(v).len() >= 1,
        render_pool(v)[0] == '{',
{
    lemma_render_pool_head_helper(v);
}

#[verifier::rlimit(100)]
#[verifier::spinoff_prover]
pub proof fn lemma_pools_round_trip(s: Seq<StoragePoolView>, rest: Seq<char>)
    requires
        forall|j: int| 0 <= j < s.len() ==> pool_view_bounded(#[trigger] s[j]),
    ensures
        spec_parse_pools(render_pool_items(s) + rest) == Some::<(Seq<StoragePoolView>, Seq<char>)>(
            (s, rest),
        ),
    decreases s.len(),
{
    if s.len() == 0 {
        let whole = seq![']'] + rest;
        assert(render_pool_items(s) + rest =~= whole);
        assert(whole.first() == ']');
        assert(whole.skip(1) =~= rest);
        assert(Seq::<StoragePoolView>::empty() =~= s);
    } else {
        lemma_render_pool_head(s[0]);
        assert(pool_view_bounded(s[0]));
        if s.len() == 1 {
            let tail = seq![']'] + rest;
            let whole = render_pool(s[0]) + tail;
            assert(render_pool_items(s) + rest =~= whole);
            assert(whole.first() == render_pool(s[0])[0]);
            assert(whole.first() != ']');
            lemma_pool_round_trip(s[0], tail);
            assert(tail.len() < whole.len());
            assert(tail.first() == ']');
            assert(tail.skip(1) =~= rest);
            assert(seq![s[0]] =~= s);
        } else {
            assert(forall|j: int|
                0 <= j < s.drop_first().len() ==> (#[trigger] s.drop_first()[j]) == s[j + 1]);
            lemma_pools_round_trip(s.drop_first(), rest);
            let tail2 = render_pool_items(s.drop_first()) + rest;
            let tail = seq![','] + tail2;
            let whole = render_pool(s[0]) + tail;
            assert(render_pool_items(s) + rest =~= whole);
            assert(whole.first() == render_pool(s[0])[0]);
            assert(whole.first() != ']');
            lemma_pool_round_trip(s[0], tail);
            assert(tail.len() < whole.len());
            assert(tail.first() == ',');
            assert(tail.skip(1) =~= tail2);
            assert(seq![s[0]] + s.drop_first() =~= s);
        }
    }
}

/// Appends the items of a pool list from position `from` on, closing the
/// bracket.
fn append_pools(out: &mut String, v: &Vec<StoragePool>, from: usize)
    requires
        from <= v@.len(),
    ensures
        final(out)@ == old(out)@ + render_pool_items((v@.map_values(|e: StoragePool| e@)).skip(from as int)),
    decreases v@.len() - from,
{
    let ghost items = (v@.map_values(|e: StoragePool| e@)).skip(from as int);
    if from == v.len() {
        out.append("]");
        proof {
            reveal_strlit("]");
            assert(items =~= Seq::<StoragePoolView>::empty());
            assert(out@ =~= old(out)@ + render_pool_items(items));
        }
    } else {
        append_pool(out, &v[from]);
        proof {
            assert((v@.map_values(|e: StoragePool| e@))[from as int] == v@[from as int]@);
            assert(items[0] == v@[from as int]@);
        }
        if from + 1 == v.len() {
            out.append("]");
            proof {
                reveal_strlit("]");
                assert(items.len() == 1);
                assert(out@ =~= old(out)@ + render_pool_items(items));
            }
        } else {
            out.append(",");
            append_pools(out, v, from + 1);
            proof {
                reveal_strlit(",");
                assert(items.drop_first() =~= (v@.map_values(|e: StoragePool| e@)).skip(from as int + 1));
                assert(render_pool_items(items) =~= render_pool(items[0]) + seq![',']
                    + render_pool_items(items.drop_first()));
                assert(out@ =~= old(out)@ + render_pool_items(items));
            }
        }
    }
}

/// Parses a pool list (after the opening bracket).
#[verifier::rlimit(100)]
#[verifier::spinoff_prover]
fn parse_pools_list<'a>(s0: &'a str) -> (r: Option<(Vec<StoragePool>, &'a str)>)
    ensures
        match r {
            Some((xs, rest)) => spec_parse_pools(s0@) == Some::<(Seq<StoragePoolView>, Seq<char>)>(
                ((xs@.map_values(|e: StoragePool| e@)), rest@),
            ),
            None => spec_parse_pools(s0@) is None,
        },
    decreases s0@.len(),
{
    let n = s0.unicode_len();
    if n == 0 {
        return None;
    }
    if s0.get_char(0) == ']' {
        let rest = s0.substring_char(1, n);
        let out: Vec<StoragePool> = Vec::new();
        proof {
            assert(rest@ =~= s0@.skip(1));
            assert((out@.map_values(|e: StoragePool| e@)) =~= Seq::<StoragePoolView>::empty());
        }
        return Some((out, rest));
    }
    let (x, r1) = match parse_pool(s0) {
        Some(p) => p,
        None => {
            return None;
        },
    };
    let rl = r1.unicode_len();
    if rl >= n {
        return None;
    }
    if rl >= 1 && r1.get_char(0) == ',' {
        let tail = r1.substring_char(1, rl);
        proof {
            assert(tail@ =~= r1@.skip(1));
        }
        match parse_pools_list(tail) {
            Some((vs, r2)) => {
                let ghost vsv = vs@.map_values(|e: StoragePool| e@);
                let mut out: Vec<StoragePool> = Vec::new();
                out.push(x);
                let mut tailvec = vs;
                out.append(&mut tailvec);
                proof {
                    assert((out@.map_values(|e: StoragePool| e@)) =~= seq![x@] + vsv);
                }
                Some((out, r2))
            },
            None => None,
        }
    } else if rl >= 1 && r1.get_char(0) == ']' {
        let rest = r1.substring_char(1, rl);
        let mut out: Vec<StoragePool> = Vec::new();
        out.push(x);
        proof {
            assert(rest@ =~= r1@.skip(1));
            assert((out@.map_values(|e: StoragePool| e@)) =~= seq![x@]);
        }
        Some((out, rest))
    } else {
        None
    }
}

/// The items of a runtime list, after the opening bracket: the items joined
/// by commas, then the closing bracket.
pub open spec fn render_runtime_items(s: Seq<Runtime>) -> Seq<char>
    decreases s.len(),
{
    if s.len() == 0 {
        seq![']']
    } else if s.len() == 1 {
        render_runtime(s[0]) + seq![']']
    } else {
        render_runtime(s[0]) + seq![','] + render_runtime_items(s.drop_first())
    }
}

pub open spec fn spec_parse_runtimes(s: Seq<char>) -> Option<(Seq<Runtime>, Seq<char>)>
    decreases s.len(),
{
    if s.len() == 0 {
        None
    } else if s.first() == ']' {
        Some((Seq::<Runtime>::empty(), s.skip(1)))
    } else {
        match spec_parse_runtime(s) {
            None => None,
            Some((v, r)) => if r.len() < s.len() {
                if r.len() >= 1 && r.first() == ',' {
                    match spec_parse_runtimes(r.skip(1)) {
                        None => None,
                        Some((vs, r2)) => Some((seq![v] + vs, r2)),
                    }
                } else if r.len() >= 1 && r.first() == ']' {
                    Some((seq![v], r.skip(1)))
                } else {
                    None
                }
            } else {
                None
            },
        }
    }
}

/// A rendered runtime starts with `"`, never a bracket or comma.
proof fn lemma_render_runtime_head(v: Runtime)
    ensures
        render_runtime(v).len() >= 1,
        render_runtime(v)[0] == '"',
{
    lemma_render_runtime_head_helper(v);
}

pub proof fn lemma_runtimes_round_trip(s: Seq<Runtime>, rest: Seq<char>)
    ensures
        spec_parse_runtimes(render_runtime_items(s) + rest) == Some::<(Seq<Runtime>, Seq<char>)>(
            (s, rest),
        ),
    decreases s.len(),
{
    if s.len() == 0 {
        let whole = seq![']'] + rest;
        assert(render_runtime_items(s) + rest =~= whole);
        assert(whole.first() == ']');
        assert(whole.skip(1) =~= rest);
        assert(Seq::<Runtime>::empty() =~= s);
    } else {
        lemma_render_runtime_head(s[0]);

        if s.len() == 1 {
            let tail = seq![']'] + rest;
            let whole = render_runtime(s[0]) + tail;
            assert(render_runtime_items(s) + rest =~= whole);
            assert(whole.first() == render_runtime(s[0])[0]);
            assert(whole.first() != ']');
            lemma_runtime_round_trip(s[0], tail);
            assert(tail.len() < whole.len());
            assert(tail.first() == ']');
            assert(tail.skip(1) =~= rest);
            assert(seq![s[0]] =~= s);
        } else {
            assert(forall|j: int|
                0 <= j < s.drop_first().len() ==> (#[trigger] s.drop_first()[j]) == s[j + 1]);
            lemma_runtimes_round_trip(s.drop_first(), rest);
            let tail2 = render_runtime_items(s.drop_first()) + rest;
            let tail = seq![','] + tail2;
            let whole = render_runtime(s[0]) + tail;
            assert(render_runtime_items(s) + rest =~= whole);
            assert(whole.first() == render_runtime(s[0])[0]);
            assert(whole.first() != ']');
            lemma_runtime_round_trip(s[0], tail);
            assert(tail.len() < whole.len());
            assert(tail.first() == ',');
            assert(tail.skip(1) =~= tail2);
            assert(seq![s[0]] + s.drop_first() =~= s);
        }
    }
}

/// Appends the items of a runtime list from position `from` on, closing the
/// bracket.
fn append_runtimes(out: &mut String, v: &Vec<Runtime>, from: usize)
    requires
        from <= v@.len(),
    ensures
        final(out)@ == old(out)@ + render_runtime_items((v@).skip(from as int)),
    decreases v@.len() - from,
{
    let ghost items = (v@).skip(from as int);
    if from == v.len() {
        out.append("]");
        proof {
            reveal_strlit("]");
            assert(items =~= Seq::<Runtime>::empty());
            assert(out@ =~= old(out)@ + render_runtime_items(items));
        }
    } else {
        append_runtime(out, &v[from]);
        proof {
            assert((v@)[from as int] == v@[from as int]);
            assert(items[0] == v@[from as int]);
        }
        if from + 1 == v.len() {
            out.append("]");
            proof {
                reveal_strlit("]");
                assert(items.len() == 1);
                assert(out@ =~= old(out)@ + render_runtime_items(items));
            }
        } else {
            out.append(",");
            append_runtimes(out, v, from + 1);
            proof {
                reveal_strlit(",");
                assert(items.drop_first() =~= (v@).skip(from as int + 1));
                assert(render_runtime_items(items) =~= render_runtime(items[0]) + seq![',']
                    + render_runtime_items(items.drop_first()));
                assert(out@ =~= old(out)@ + render_runtime_items(items));
            }
        }
    }
}

/// Parses a runtime list (after the opening bracket).
#[verifier::rlimit(100)]
#[verifier::spinoff_prover]
fn parse_runtimes_list<'a>(s0: &'a str) -> (r: Option<(Vec<Runtime>, &'a str)>)
    ensures
        match r {
            Some((xs, rest)) => spec_parse_runtimes(s0@) == Some::<(Seq<Runtime>, Seq<char>)>(
                ((xs@), rest@),
            ),
            None => spec_parse_runtimes(s0@) is None,
        },
    decreases s0@.len(),
{
    let n = s0.unicode_len();
    if n == 0 {
        return None;
    }
    if s0.get_char(0) == ']' {
        let rest = s0.substring_char(1, n);
        let out: Vec<Runtime> = Vec::new();
        proof {
            assert(rest@ =~= s0@.skip(1));
            assert((out@) =~= Seq::<Runtime>::empty());
        }
        return Some((out, rest));
    }
    let (x, r1) = match parse_runtime(s0) {
        Some(p) => p,
        None => {
            return None;
        },
    };
    let rl = r1.unicode_len();
    if rl >= n {
        return None;
    }
    if rl >= 1 && r1.get_char(0) == ',' {
        let tail = r1.substring_char(1, rl);
        proof {
            assert(tail@ =~= r1@.skip(1));
        }
        match parse_runtimes_list(tail) {
            Some((vs, r2)) => {
                let ghost vsv = vs@;
                let mut out: Vec<Runtime> = Vec::new();
                out.push(x);
                let mut tailvec = vs;
                out.append(&mut tailvec);
                proof {
                    assert((out@) =~= seq![x] + vsv);
                }
                Some((out, r2))
            },
            None => None,
        }
    } else if rl >= 1 && r1.get_char(0) == ']' {
        let rest = r1.substring_char(1, rl);
        let mut out: Vec<Runtime> = Vec::new();
        out.push(x);
        proof {
            assert(rest@ =~= r1@.skip(1));
            assert((out@) =~= seq![x]);
        }
        Some((out, rest))
    } else {
        None
    }
}

/// The items of a instance list, after the opening bracket: the items joined
/// by commas, then the closing bracket.
pub open spec fn render_instance_items(s: Seq<InstanceView>) -> Seq<char>
    decreases s.len(),
{
    if s.len() == 0 {
        seq![']']
    } else if s.len() == 1 {
        render_instance(s[0]) + seq![']']
    } else {
        render_instance(s[0]) + seq![','] + render_instance_items(s.drop_first())
    }
}

pub open spec fn spec_parse_instances(s: Seq<char>) -> Option<(Seq<InstanceView>, Seq<char>)>
    decreases s.len(),
{
    if s.len() == 0 {
        None
    } else if s.first() == ']' {
        Some((Seq::<InstanceView>::empty(), s.skip(1)))
    } else {
        match spec_parse_instance(s) {
            None => None,
            Some((v, r)) => if r.len() < s.len() {
                if r.len() >= 1 && r.first() == ',' {
                    match spec_parse_instances(r.skip(1)) {
                        None => None,
                        Some((vs, r2)) => Some((seq![v] + vs, r2)),
                    }
                } else if r.len() >= 1 && r.first() == ']' {
                    Some((seq![v], r.skip(1)))
                } else {
                    None
                }
            } else {
                None
            },
        }
    }
}

/// A rendered instance starts with `{`, never a bracket or comma.
proof fn lemma_render_instance_head(v: InstanceView)
    ensures
        render_instance(v).len() >= 1,
        render_instance(v)[0] == '{',
{
    lemma_render_instance_head_helper(v);
}

#[verifier::rlimit(100)]
#[verifier::spinoff_prover]
pub proof fn lemma_instances_round_trip(s: Seq<InstanceView>, rest: Seq<char>)
    requires
        forall|j: int| 0 <= j < s.len() ==> instance_view_bounded(#[trigger] s[j]),
    ensures
        spec_parse_instances(render_instance_items(s) + rest) == Some::<(Seq<InstanceView>, Seq<char>)>(
            (s, rest),
        ),
    decreases s.len(),
{
    if s.len() == 0 {
        let whole = seq![']'] + rest;
        assert(render_instance_items(s) + rest =~= whole);
        assert(whole.first() == ']');
        assert(whole.skip(1) =~= rest);
        assert(Seq::<InstanceView>::empty() =~= s);
    } else {
        lemma_render_instance_head(s[0]);
        assert(instance_view_bounded(s[0]));
        if s.len() == 1 {
            let tail = seq![']'] + rest;
            let whole = render_instance(s[0]) + tail;
            assert(render_instance_items(s) + rest =~= whole);
            assert(whole.first() == render_instance(s[0])[0]);
            assert(whole.first() != ']');
            lemma_instance_round_trip(s[0], tail);
            assert(tail.len() < whole.len());
            assert(tail.first() == ']');
            assert(tail.skip(1) =~= rest);
            assert(seq![s[0]] =~= s);
        } else {
            assert(forall|j: int|
                0 <= j < s.drop_first().len() ==> (#[trigger] s.drop_first()[j]) == s[j + 1]);
            lemma_instances_round_trip(s.drop_first(), rest);
            let tail2 = render_instance_items(s.drop_first()) + rest;
            let tail = seq![','] + tail2;
            let whole = render_instance(s[0]) + tail;
            assert(render_instance_items(s) + rest =~= whole);
            assert(whole.first() == render_instance(s[0])[0]);
            assert(whole.first() != ']');
            lemma_instance_round_trip(s[0], tail);
            assert(tail.len() < whole.len());
            assert(tail.first() == ',');
            assert(tail.skip(1) =~= tail2);
            assert(seq![s[0]] + s.drop_first() =~= s);
        }
    }
}

/// Appends the items of a instance list from position `from` on, closing the
/// bracket.
fn append_instances(out: &mut String, v: &Vec<Instance>, from: usize)
    requires
        from <= v@.len(),
    ensures
        final(out)@ == old(out)@ + render_instance_items((v@.map_values(|e: Instance| e@)).skip(from as int)),
    decreases v@.len() - from,
{
    let ghost items = (v@.map_values(|e: Instance| e@)).skip(from as int);
    if from == v.len() {
        out.append("]");
        proof {
            reveal_strlit("]");
            assert(items =~= Seq::<InstanceView>::empty());
            assert(out@ =~= old(out)@ + render_instance_items(items));
        }
    } else {
        append_instance(out, &v[from]);
        proof {
            assert((v@.map_values(|e: Instance| e@))[from as int] == v@[from as int]@);
            assert(items[0] == v@[from as int]@);
        }
        if from + 1 == v.len() {
            out.append("]");
            proof {
                reveal_strlit("]");
                assert(items.len() == 1);
                assert(out@ =~= old(out)@ + render_instance_items(items));
            }
        } else {
            out.append(",");
            append_instances(out, v, from + 1);
            proof {
                reveal_strlit(",");
                assert(items.drop_first() =~= (v@.map_values(|e: Instance| e@)).skip(from as int + 1));
                assert(render_instance_items(items) =~= render_instance(items[0]) + seq![',']
                    + render_instance_items(items.drop_first()));
                assert(out@ =~= old(out)@ + render_instance_items(items));
            }
        }
    }
}

/// Parses a instance list (after the opening bracket).
#[verifier::rlimit(100)]
#[verifier::spinoff_prover]
fn parse_instances_list<'a>(s0: &'a str) -> (r: Option<(Vec<Instance>, &'a str)>)
    ensures
        match r {
            Some((xs, rest)) => spec_parse_instances(s0@) == Some::<(Seq<InstanceView>, Seq<char>)>(
                ((xs@.map_values(|e: Instance| e@)), rest@),
            ),
            None => spec_parse_instances(s0@) is None,
        },
    decreases s0@.len(),
{
    let n = s0.unicode_len();
    if n == 0 {
        return None;
    }
    if s0.get_char(0) == ']' {
        let rest = s0.substring_char(1, n);
        let out: Vec<Instance> = Vec::new();
        proof {
            assert(rest@ =~= s0@.skip(1));
            assert((out@.map_values(|e: Instance| e@)) =~= Seq::<InstanceView>::empty());
        }
        return Some((out, rest));
    }
    let (x, r1) = match parse_instance_exec(s0) {
        Some(p) => p,
        None => {
            return None;
        },
    };
    let rl = r1.unicode_len();
    if rl >= n {
        return None;
    }
    if rl >= 1 && r1.get_char(0) == ',' {
        let tail = r1.substring_char(1, rl);
        proof {
            assert(tail@ =~= r1@.skip(1));
        }
        match parse_instances_list(tail) {
            Some((vs, r2)) => {
                let ghost vsv = vs@.map_values(|e: Instance| e@);
                let mut out: Vec<Instance> = Vec::new();
                out.push(x);
                let mut tailvec = vs;
                out.append(&mut tailvec);
                proof {
                    assert((out@.map_values(|e: Instance| e@)) =~= seq![x@] + vsv);
                }
                Some((out, r2))
            },
            None => None,
        }
    } else if rl >= 1 && r1.get_char(0) == ']' {
        let rest = r1.substring_char(1, rl);
        let mut out: Vec<Instance> = Vec::new();
        out.push(x);
        proof {
            assert(rest@ =~= r1@.skip(1));
            assert((out@.map_values(|e: Instance| e@)) =~= seq![x@]);
        }
        Some((out, rest))
    } else {
        None
    }
}

/// The items of a user list, after the opening bracket: the items joined
/// by commas, then the closing bracket.
pub open spec fn render_user_items(s: Seq<UserView>) -> Seq<char>
    decreases s.len(),
{
    if s.len() == 0 {
        seq![']']
    } else if s.len() == 1 {
        render_user(s[0]) + seq![']']
    } else {
        render_user(s[0]) + seq![','] + render_user_items(s.drop_first())
    }
}

pub open spec fn spec_parse_users(s: Seq<char>) -> Option<(Seq<UserView>, Seq<char>)>
    decreases s.len(),
{
    if s.len() == 0 {
        None
    } else if s.first() == ']' {
        Some((Seq::<UserView>::empty(), s.skip(1)))
    } else {
        match spec_parse_user(s) {
            None => None,
            Some((v, r)) => if r.len() < s.len() {
                if r.len() >= 1 && r.first() == ',' {
                    match spec_parse_users(r.skip(1)) {
                        None => None,
                        Some((vs, r2)) => Some((seq![v] + vs, r2)),
                    }
                } else if r.len() >= 1 && r.first() == ']' {
                    Some((seq![v], r.skip(1)))
                } else {
                    None
                }
            } else {
                None
            },
        }
    }
}

/// A rendered user starts with `{`, never a bracket or comma.
proof fn lemma_render_user_head(v: UserView)
    ensures
        render_user(v).len() >= 1,
        render_user(v)[0] == '{',
{
    lemma_render_user_head_helper(v);
}

#[verifier::rlimit(100)]
#[verifier::spinoff_prover]
pub proof fn lemma_users_round_trip(s: Seq<UserView>, rest: Seq<char>)
    requires
        forall|j: int| 0 <= j < s.len() ==> user_view_bounded(#[trigger] s[j]),
    ensures
        spec_parse_users(render_user_items(s) + rest) == Some::<(Seq<UserView>, Seq<char>)>(
            (s, rest),
        ),
    decreases s.len(),
{
    if s.len() == 0 {
        let whole = seq![']'] + rest;
        assert(render_user_items(s) + rest =~= whole);
        assert(whole.first() == ']');
        assert(whole.skip(1) =~= rest);
        assert(Seq::<UserView>::empty() =~= s);
    } else {
        lemma_render_user_head(s[0]);
        assert(user_view_bounded(s[0]));
        if s.len() == 1 {
            let tail = seq![']'] + rest;
            let whole = render_user(s[0]) + tail;
            assert(render_user_items(s) + rest =~= whole);
            assert(whole.first() == render_user(s[0])[0]);
            assert(whole.first() != ']');
            lemma_user_round_trip(s[0], tail);
            assert(tail.len() < whole.len());
            assert(tail.first() == ']');
            assert(tail.skip(1) =~= rest);
            assert(seq![s[0]] =~= s);
        } else {
            assert(forall|j: int|
                0 <= j < s.drop_first().len() ==> (#[trigger] s.drop_first()[j]) == s[j + 1]);
            lemma_users_round_trip(s.drop_first(), rest);
            let tail2 = render_user_items(s.drop_first()) + rest;
            let tail = seq![','] + tail2;
            let whole = render_user(s[0]) + tail;
            assert(render_user_items(s) + rest =~= whole);
            assert(whole.first() == render_user(s[0])[0]);
            assert(whole.first() != ']');
            lemma_user_round_trip(s[0], tail);
            assert(tail.len() < whole.len());
            assert(tail.first() == ',');
            assert(tail.skip(1) =~= tail2);
            assert(seq![s[0]] + s.drop_first() =~= s);
        }
    }
}

/// Appends the items of a user list from position `from` on, closing the
/// bracket.
fn append_users(out: &mut String, v: &Vec<User>, from: usize)
    requires
        from <= v@.len(),
    ensures
        final(out)@ == old(out)@ + render_user_items((v@.map_values(|e: User| e@)).skip(from as int)),
    decreases v@.len() - from,
{
    let ghost items = (v@.map_values(|e: User| e@)).skip(from as int);
    if from == v.len() {
        out.append("]");
        proof {
            reveal_strlit("]");
            assert(items =~= Seq::<UserView>::empty());
            assert(out@ =~= old(out)@ + render_user_items(items));
        }
    } else {
        append_user(out, &v[from]);
        proof {
            assert((v@.map_values(|e: User| e@))[from as int] == v@[from as int]@);
            assert(items[0] == v@[from as int]@);
        }
        if from + 1 == v.len() {
            out.append("]");
            proof {
                reveal_strlit("]");
                assert(items.len() == 1);
                assert(out@ =~= old(out)@ + render_user_items(items));
            }
        } else {
            out.append(",");
            append_users(out, v, from + 1);
            proof {
                reveal_strlit(",");
                assert(items.drop_first() =~= (v@.map_values(|e: User| e@)).skip(from as int + 1));
                assert(render_user_items(items) =~= render_user(items[0]) + seq![',']
                    + render_user_items(items.drop_first()));
                assert(out@ =~= old(out)@ + render_user_items(items));
            }
        }
    }
}

/// Parses a user list (after the opening bracket).
#[verifier::rlimit(100)]
#[verifier::spinoff_prover]
fn parse_users_list<'a>(s0: &'a str) -> (r: Option<(Vec<User>, &'a str)>)
    ensures
        match r {
            Some((xs, rest)) => spec_parse_users(s0@) == Some::<(Seq<UserView>, Seq<char>)>(
                ((xs@.map_values(|e: User| e@)), rest@),
            ),
            None => spec_parse_users(s0@) is None,
        },
    decreases s0@.len(),
{
    let n = s0.unicode_len();
    if n == 0 {
        return None;
    }
    if s0.get_char(0) == ']' {
        let rest = s0.substring_char(1, n);
        let out: Vec<User> = Vec::new();
        proof {
            assert(rest@ =~= s0@.skip(1));
            assert((out@.map_values(|e: User| e@)) =~= Seq::<UserView>::empty());
        }
        return Some((out, rest));
    }
    let (x, r1) = match parse_user_exec(s0) {
        Some(p) => p,
        None => {
            return None;
        },
    };
    let rl = r1.unicode_len();
    if rl >= n {
        return None;
    }
    if rl >= 1 && r1.get_char(0) == ',' {
        let tail = r1.substring_char(1, rl);
        proof {
            assert(tail@ =~= r1@.skip(1));
        }
        match parse_users_list(tail) {
            Some((vs, r2)) => {
                let ghost vsv = vs@.map_values(|e: User| e@);
                let mut out: Vec<User> = Vec::new();
                out.push(x);
                let mut tailvec = vs;
                out.append(&mut tailvec);
                proof {
                    assert((out@.map_values(|e: User| e@)) =~= seq![x@] + vsv);
                }
                Some((out, r2))
            },
            None => None,
        }
    } else if rl >= 1 && r1.get_char(0) == ']' {
        let rest = r1.substring_char(1, rl);
        let mut out: Vec<User> = Vec::new();
        out.push(x);
        proof {
            assert(rest@ =~= r1@.skip(1));
            assert((out@.map_values(|e: User| e@)) =~= seq![x@]);
        }
        Some((out, rest))
    } else {
        None
    }
}

/// The items of a node list, after the opening bracket: the items joined
/// by commas, then the closing bracket.
pub open spec fn render_node_items(s: Seq<NodeView>) -> Seq<char>
    decreases s.len(),
{
    if s.len() == 0 {
        seq![']']
    } else if s.len() == 1 {
        render_node(s[0]) + seq![']']
    } else {
        render_node(s[0]) + seq![','] + render_node_items(s.drop_first())
    }
}

pub open spec fn spec_parse_nodes(s: Seq<char>) -> Option<(Seq<NodeView>, Seq<char>)>
    decreases s.len(),
{
    if s.len() == 0 {
        None
    } else if s.first() == ']' {
        Some((Seq::<NodeView>::empty(), s.skip(1)))
    } else {
        match spec_parse_node(s) {
            None => None,
            Some((v, r)) => if r.len() < s.len() {
                if r.len() >= 1 && r.first() == ',' {
                    match spec_parse_nodes(r.skip(1)) {
                        None => None,
                        Some((vs, r2)) => Some((seq![v] + vs, r2)),
                    }
                } else if r.len() >= 1 && r.first() == ']' {
                    Some((seq![v], r.skip(1)))
                } else {
                    None
                }
            } else {
                None
            },
        }
    }
}

/// A rendered node starts with `{`, never a bracket or comma.
proof fn lemma_render_node_head(v: NodeView)
    ensures
        render_node(v).len() >= 1,
        render_node(v)[0] == '{',
{
    lemma_render_node_head_helper(v);
}

#[verifier::rlimit(100)]
#[verifier::spinoff_prover]
pub proof fn lemma_nodes_round_trip(s: Seq<NodeView>, rest: Seq<char>)
    requires
        forall|j: int| 0 <= j < s.len() ==> node_view_bounded(#[trigger] s[j]),
    ensures
        spec_parse_nodes(render_node_items(s) + rest) == Some::<(Seq<NodeView>, Seq<char>)>(
            (s, rest),
        ),
    decreases s.len(),
{
    if s.len() == 0 {
        let whole = seq![']'] + rest;
        assert(render_node_items(s) + rest =~= whole);
        assert(whole.first() == ']');
        assert(whole.skip(1) =~= rest);
        assert(Seq::<NodeView>::empty() =~= s);
    } else {
        lemma_render_node_head(s[0]);
        assert(node_view_bounded(s[0]));
        if s.len() == 1 {
            let tail = seq![']'] + rest;
            let whole = render_node(s[0]) + tail;
            assert(render_node_items(s) + rest =~= whole);
            assert(whole.first() == render_node(s[0])[0]);
            assert(whole.first() != ']');
            lemma_node_round_trip(s[0], tail);
            assert(tail.len() < whole.len());
            assert(tail.first() == ']');
            assert(tail.skip(1) =~= rest);
            assert(seq![s[0]] =~= s);
        } else {
            assert(forall|j: int|
                0 <= j < s.drop_first().len() ==> (#[trigger] s.drop_first()[j]) == s[j + 1]);
            lemma_nodes_round_trip(s.drop_first(), rest);
            let tail2 = render_node_items(s.drop_first()) + rest;
            let tail = seq![','] + tail2;
            let whole = render_node(s[0]) + tail;
            assert(render_node_items(s) + rest =~= whole);
            assert(whole.first() == render_node(s[0])[0]);
            assert(whole.first() != ']');
            lemma_node_round_trip(s[0], tail);
            assert(tail.len() < whole.len());
            assert(tail.first() == ',');
            assert(tail.skip(1) =~= tail2);
            assert(seq![s[0]] + s.drop_first() =~= s);
        }
    }
}

/// Appends the items of a node list from position `from` on, closing the
/// bracket.
fn append_nodes(out: &mut String, v: &Vec<Node>, from: usize)
    requires
        from <= v@.len(),
    ensures
        final(out)@ == old(out)@ + render_node_items((v@.map_values(|e: Node| e@)).skip(from as int)),
    decreases v@.len() - from,
{
    let ghost items = (v@.map_values(|e: Node| e@)).skip(from as int);
    if from == v.len() {
        out.append("]");
        proof {
            reveal_strlit("]");
            assert(items =~= Seq::<NodeView>::empty());
            assert(out@ =~= old(out)@ + render_node_items(items));
        }
    } else {
        append_node(out, &v[from]);
        proof {
            assert((v@.map_values(|e: Node| e@))[from as int] == v@[from as int]@);
            assert(items[0] == v@[from as int]@);
        }
        if from + 1 == v.len() {
            out.append("]");
            proof {
                reveal_strlit("]");
                assert(items.len() == 1);
                assert(out@ =~= old(out)@ + render_node_items(items));
            }
        } else {
            out.append(",");
            append_nodes(out, v, from + 1);
            proof {
                reveal_strlit(",");
                assert(items.drop_first() =~= (v@.map_values(|e: Node| e@)).skip(from as int + 1));
                assert(render_node_items(items) =~= render_node(items[0]) + seq![',']
                    + render_node_items(items.drop_first()));
                assert(out@ =~= old(out)@ + render_node_items(items));
            }
        }
    }
}

/// Parses a node list (after the opening bracket).
#[verifier::rlimit(100)]
#[verifier::spinoff_prover]
fn parse_nodes_list<'a>(s0: &'a str) -> (r: Option<(Vec<Node>, &'a str)>)
    ensures
        match r {
            Some((xs, rest)) => spec_parse_nodes(s0@) == Some::<(Seq<NodeView>, Seq<char>)>(
                ((xs@.map_values(|e: Node| e@)), rest@),
            ),
            None => spec_parse_nodes(s0@) is None,
        },
    decreases s0@.len(),
{
    let n = s0.unicode_len();
    if n == 0 {
        return None;
    }
    if s0.get_char(0) == ']' {
        let rest = s0.substring_char(1, n);
        let out: Vec<Node> = Vec::new();
        proof {
            assert(rest@ =~= s0@.skip(1));
            assert((out@.map_values(|e: Node| e@)) =~= Seq::<NodeView>::empty());
        }
        return Some((out, rest));
    }
    let (x, r1) = match parse_node_exec(s0) {
        Some(p) => p,
        None => {
            return None;
        },
    };
    let rl = r1.unicode_len();
    if rl >= n {
        return None;
    }
    if rl >= 1 && r1.get_char(0) == ',' {
        let tail = r1.substring_char(1, rl);
        proof {
            assert(tail@ =~= r1@.skip(1));
        }
        match parse_nodes_list(tail) {
            Some((vs, r2)) => {
                let ghost vsv = vs@.map_values(|e: Node| e@);
                let mut out: Vec<Node> = Vec::new();
                out.push(x);
                let mut tailvec = vs;
                out.append(&mut tailvec);
                proof {
                    assert((out@.map_values(|e: Node| e@)) =~= seq![x@] + vsv);
                }
                Some((out, r2))
            },
            None => None,
        }
    } else if rl >= 1 && r1.get_char(0) == ']' {
        let rest = r1.substring_char(1, rl);
        let mut out: Vec<Node> = Vec::new();
        out.push(x);
        proof {
            assert(rest@ =~= r1@.skip(1));
            assert((out@.map_values(|e: Node| e@)) =~= seq![x@]);
        }
        Some((out, rest))
    } else {
        None
    }
}

/// Number fields fit the machine's integers.
pub open spec fn instance_view_bounded(v: InstanceView) -> bool {
    &&& 0 <= v.cpu <= usize::MAX
    &&& 0 <= v.memory <= usize::MAX
    &&& 0 <= v.disk_size <= usize::MAX
}



pub ghost struct InstanceFront {
    pub name: Seq<char>,
    pub cpu: int,
    pub memory: int,
    pub disk_size: int,
    pub image: Image,
    pub hostname: Seq<char>,
    pub ssh_host: Option<Seq<char>>,
    pub ssh_port: Option<i32>,
}

pub open spec fn render_instance_front(v: InstanceView) -> Seq<char> {
    "{\"name\":"@ + render_string(v.name) + ",\"cpu\":"@ + render_usize(v.cpu) + ",\"memory\":"@ + render_usize(v.memory) + ",\"disk_size\":"@ + render_usize(v.disk_size) + ",\"image\":"@ + render_string(image_display(v.image)) + ",\"hostname\":"@ + render_string(v.hostname) + ",\"ssh_host\":"@ + render_opt_string(v.ssh_host) + ",\"ssh_port\":"@ + render_opt_i32(v.ssh_port)
}

pub open spec fn spec_parse_instance_front(s0: Seq<char>) -> Option<(InstanceFront, Seq<char>)> {
    match spec_parse_lit(s0, "{\"name\":"@) {
        None => None,
        Some(s1) => {
        match spec_parse_quoted(s1) {
            None => None,
            Some((name, s2)) => {
            match spec_parse_lit(s2, ",\"cpu\":"@) {
                None => None,
                Some(s3) => {
                match spec_parse_usize(s3) {
                    None => None,
                    Some((cpu, s4)) => {
                    match spec_parse_lit(s4, ",\"memory\":"@) {
                        None => None,
                        Some(s5) => {
                        match spec_parse_usize(s5) {
                            None => None,
                            Some((memory, s6)) => {
                            match spec_parse_lit(s6, ",\"disk_size\":"@) {
                                None => None,
                                Some(s7) => {
                                match spec_parse_usize(s7) {
                                    None => None,
                                    Some((disk_size, s8)) => {
                                    match spec_parse_lit(s8, ",\"image\":"@) {
                                        None => None,
                                        Some(s9) => {
                                        match spec_parse_quoted(s9) {
                                            None => None,
                                            Some((image_body, s10)) => match image_from_display(image_body) {
                                                None => None,
                                                Some(image_v) => {
                                            match spec_parse_lit(s10, ",\"hostname\":"@) {
                                                None => None,
                                                Some(s11) => {
                                                match spec_parse_quoted(s11) {
                                                    None => None,
                                                    Some((hostname, s12)) => {
                                                    match spec_parse_lit(s12, ",\"ssh_host\":"@) {
                                                        None => None,
                                                        Some(s13) => {
                                                        match spec_parse_opt_string(s13) {
                                                            None => None,
                                                            Some((ssh_host, s14)) => {
                                                            match spec_parse_lit(s14, ",\"ssh_port\":"@) {
                                                                None => None,
                                                                Some(s15) => {
                                                                match spec_parse_opt_i32(s15) {
                                                                    None => None,
                                                                    Some((ssh_port, s16)) => {
                                                                    Some((InstanceFront { name, cpu, memory, disk_size, image: image_v, hostname, ssh_host, ssh_port }, s16))
                                                                    },
                                                                }
                                                                },
                                                            }
                                                            },
                                                        }
                                                        },
                                                    }
                                                    },
                                                }
                                                },
                                            }
                                                },
                                            },
                                        }
                                        },
                                    }
                                    },
                                }
                                },
                            }
                            },
                        }
                        },
                    }
                    },
                }
                },
            }
            },
        }
        },
    }
}

pub open spec fn instance_front_of(v: InstanceView) -> InstanceFront {
    InstanceFront { name: v.name, cpu: v.cpu, memory: v.memory, disk_size: v.disk_size, image: v.image, hostname: v.hostname, ssh_host: v.ssh_host, ssh_port: v.ssh_port }
}

#[verifier::rlimit(100)]
#[verifier::spinoff_prover]
pub proof fn lemma_instance_front_round_trip(v: InstanceView, rest: Seq<char>)
    requires
        instance_view_bounded(v),
        rest.len() == 0 || !is_digit_char(rest[0]),
    ensures
        spec_parse_instance_front(render_instance_front(v) + rest) == Some::<
            (InstanceFront, Seq<char>),
        >((instance_front_of(v), rest)),
{
    reveal_strlit(",\"cpu\":");
    reveal_strlit(",\"disk_size\":");
    reveal_strlit(",\"hostname\":");
    reveal_strlit(",\"image\":");
    reveal_strlit(",\"memory\":");
    reveal_strlit(",\"ssh_host\":");
    reveal_strlit(",\"ssh_port\":");
    reveal_strlit("{\"name\":");
    let t16 = rest;
    let t15 = render_opt_i32(v.ssh_port) + t16;
    let t14 = ",\"ssh_port\":"@ + t15;
    let t13 = render_opt_string(v.ssh_host) + t14;
    let t12 = ",\"ssh_host\":"@ + t13;
    let t11 = render_string(v.hostname) + t12;
    let t10 = ",\"hostname\":"@ + t11;
    let t9 = render_string(image_display(v.image)) + t10;
    let t8 = ",\"image\":"@ + t9;
    let t7 = render_usize(v.disk_size) + t8;
    let t6 = ",\"disk_size\":"@ + t7;
    let t5 = render_usize(v.memory) + t6;
    let t4 = ",\"memory\":"@ + t5;
    let t3 = render_usize(v.cpu) + t4;
    let t2 = ",\"cpu\":"@ + t3;
    let t1 = render_string(v.name) + t2;
    let t0 = "{\"name\":"@ + t1;
    assert(render_instance_front(v) + rest =~= t0);
    lemma_parse_lit_prepend("{\"name\":"@, t1);
    lemma_quoted_round_trip(v.name, t2);
    lemma_parse_lit_prepend(",\"cpu\":"@, t3);
    assert(!is_digit_char((",\"memory\":"@)[0]));
    lemma_lit_starts_nondigit(",\"memory\":"@, t5);
    lemma_usize_round_trip(v.cpu, t4);
    lemma_parse_lit_prepend(",\"memory\":"@, t5);
    assert(!is_digit_char((",\"disk_size\":"@)[0]));
    lemma_lit_starts_nondigit(",\"disk_size\":"@, t7);
    lemma_usize_round_trip(v.memory, t6);
    lemma_parse_lit_prepend(",\"disk_size\":"@, t7);
    assert(!is_digit_char((",\"image\":"@)[0]));
    lemma_lit_starts_nondigit(",\"image\":"@, t9);
    lemma_usize_round_trip(v.disk_size, t8);
    lemma_parse_lit_prepend(",\"image\":"@, t9);
    lemma_quoted_round_trip(image_display(v.image), t10);
    lemma_image_display_parses(v.image);
    lemma_parse_lit_prepend(",\"hostname\":"@, t11);
    lemma_quoted_round_trip(v.hostname, t12);
    lemma_parse_lit_prepend(",\"ssh_host\":"@, t13);
    lemma_opt_string_round_trip(v.ssh_host, t14);
    lemma_parse_lit_prepend(",\"ssh_port\":"@, t15);
    lemma_opt_i32_round_trip(v.ssh_port, t16);
}

#[verifier::rlimit(100)]
#[verifier::spinoff_prover]
fn append_instance_front(out: &mut String, x: &Instance)
    ensures
        final(out)@ == old(out)@ + render_instance_front(x@),
{
    out.append("{\"name\":");
    append_rendered_string(out, x.name.as_str());
    out.append(",\"cpu\":");
    let t_cpu = usize_to_string(x.cpu);
    out.append(t_cpu.as_str());
    out.append(",\"memory\":");
    let t_memory = usize_to_string(x.memory);
    out.append(t_memory.as_str());
    out.append(",\"disk_size\":");
    let t_disk_size = usize_to_string(x.disk_size);
    out.append(t_disk_size.as_str());
    out.append(",\"image\":");
    append_rendered_string(out, x.image.as_str());
    out.append(",\"hostname\":");
    append_rendered_string(out, x.hostname.as_str());
    out.append(",\"ssh_host\":");
    append_opt_string(out, &x.ssh_host);
    out.append(",\"ssh_port\":");
    append_opt_i32(out, &x.ssh_port);
    proof {
        assert(out@ =~= old(out)@ + render_instance_front(x@));
    }
}

pub ghost struct InstanceBack {
    pub password: Seq<char>,
    pub stage: InstanceStage,
    pub status: StatusView,
    pub internal_ip: Option<Seq<char>>,
    pub external_ip: Option<Seq<char>>,
    pub runtime: Runtime,
    pub node_name: Option<Seq<char>>,
    pub storage_pool: Option<Seq<char>>,
}

pub open spec fn render_instance_back(v: InstanceView) -> Seq<char> {
    ",\"password\":"@ + render_string(v.password) + ",\"stage\":"@ + render_string(crate::catalog::stage_display(v.stage)) + ",\"status\":"@ + render_string(crate::catalog::status_display(v.status)) + ",\"internal_ip\":"@ + render_opt_string(v.internal_ip) + ",\"external_ip\":"@ + render_opt_string(v.external_ip) + ",\"runtime\":"@ + render_string(runtime_display(v.runtime)) + ",\"node_name\":"@ + render_opt_string(v.node_name) + ",\"storage_pool\":"@ + render_opt_string(v.storage_pool) + "}"@
}

pub open spec fn spec_parse_instance_back(s0: Seq<char>) -> Option<(InstanceBack, Seq<char>)> {
    match spec_parse_lit(s0, ",\"password\":"@) {
        None => None,
        Some(s1) => {
        match spec_parse_quoted(s1) {
            None => None,
            Some((password, s2)) => {
            match spec_parse_lit(s2, ",\"stage\":"@) {
                None => None,
                Some(s3) => {
                match spec_parse_quoted(s3) {
                    None => None,
                    Some((stage_body, s4)) => match crate::catalog::spec_stage_of(stage_body) {
                        None => None,
                        Some(stage_v) => {
                    match spec_parse_lit(s4, ",\"status\":"@) {
                        None => None,
                        Some(s5) => {
                        match spec_parse_quoted(s5) {
                            None => None,
                            Some((status_body, s6)) => match crate::catalog::spec_status_of(status_body) {
                                None => None,
                                Some(status_v) => {
                            match spec_parse_lit(s6, ",\"internal_ip\":"@) {
                                None => None,
                                Some(s7) => {
                                match spec_parse_opt_string(s7) {
                                    None => None,
                                    Some((internal_ip, s8)) => {
                                    match spec_parse_lit(s8, ",\"external_ip\":"@) {
                                        None => None,
                                        Some(s9) => {
                                        match spec_parse_opt_string(s9) {
                                            None => None,
                                            Some((external_ip, s10)) => {
                                            match spec_parse_lit(s10, ",\"runtime\":"@) {
                                                None => None,
                                                Some(s11) => {
                                                match spec_parse_quoted(s11) {
                                                    None => None,
                                                    Some((runtime_body, s12)) => match runtime_from_display(runtime_body) {
                                                        None => None,
                                                        Some(runtime_v) => {
                                                    match spec_parse_lit(s12, ",\"node_name\":"@) {
                                                        None => None,
                                                        Some(s13) => {
                                                        match spec_parse_opt_string(s13) {
                                                            None => None,
                                                            Some((node_name, s14)) => {
                                                            match spec_parse_lit(s14, ",\"storage_pool\":"@) {
                                                                None => None,
                                                                Some(s15) => {
                                                                match spec_parse_opt_string(s15) {
                                                                    None => None,
                                                                    Some((storage_pool, s16)) => {
                                                                    match spec_parse_lit(s16, "}"@) {
                                                                        None => None,
                                                                        Some(s17) => {
                                                                        Some((InstanceBack { password, stage: stage_v, status: status_v, internal_ip, external_ip, runtime: runtime_v, node_name, storage_pool }, s17))
                                                                        },
                                                                    }
                                                                    },
                                                                }
                                                                },
                                                            }
                                                            },
                                                        }
                                                        },
                                                    }
                                                        },
                                                    },
                                                }
                                                },
                                            }
                                            },
                                        }
                                        },
                                    }
                                    },
                                }
                                },
                            }
                                },
                            },
                        }
                        },
                    }
                        },
                    },
                }
                },
            }
            },
        }
        },
    }
}

pub open spec fn instance_back_of(v: InstanceView) -> InstanceBack {
    InstanceBack { password: v.password, stage: v.stage, status: v.status, internal_ip: v.internal_ip, external_ip: v.external_ip, runtime: v.runtime, node_name: v.node_name, storage_pool: v.storage_pool }
}

#[verifier::rlimit(100)]
#[verifier::spinoff_prover]
pub proof fn lemma_instance_back_round_trip(v: InstanceView, rest: Seq<char>)
    requires
        instance_view_bounded(v),
    ensures
        spec_parse_instance_back(render_instance_back(v) + rest) == Some::<
            (InstanceBack, Seq<char>),
        >((instance_back_of(v), rest)),
{
    reveal_strlit(",\"external_ip\":");
    reveal_strlit(",\"internal_ip\":");
    reveal_strlit(",\"node_name\":");
    reveal_strlit(",\"password\":");
    reveal_strlit(",\"runtime\":");
    reveal_strlit(",\"stage\":");
    reveal_strlit(",\"status\":");
    reveal_strlit(",\"storage_pool\":");
    reveal_strlit("}");
    let t17 = rest;
    let t16 = "}"@ + t17;
    let t15 = render_opt_string(v.storage_pool) + t16;
    let t14 = ",\"storage_pool\":"@ + t15;
    let t13 = render_opt_string(v.node_name) + t14;
    let t12 = ",\"node_name\":"@ + t13;
    let t11 = render_string(runtime_display(v.runtime)) + t12;
    let t10 = ",\"runtime\":"@ + t11;
    let t9 = render_opt_string(v.external_ip) + t10;
    let t8 = ",\"external_ip\":"@ + t9;
    let t7 = render_opt_string(v.internal_ip) + t8;
    let t6 = ",\"internal_ip\":"@ + t7;
    let t5 = render_string(crate::catalog::status_display(v.status)) + t6;
    let t4 = ",\"status\":"@ + t5;
    let t3 = render_string(crate::catalog::stage_display(v.stage)) + t4;
    let t2 = ",\"stage\":"@ + t3;
    let t1 = render_string(v.password) + t2;
    let t0 = ",\"password\":"@ + t1;
    assert(render_instance_back(v) + rest =~= t0);
    lemma_parse_lit_prepend(",\"password\":"@, t1);
    lemma_quoted_round_trip(v.password, t2);
    lemma_parse_lit_prepend(",\"stage\":"@, t3);
    lemma_quoted_round_trip(crate::catalog::stage_display(v.stage), t4);
    lemma_stage_display_parses(v.stage);
    lemma_parse_lit_prepend(",\"status\":"@, t5);
    lemma_quoted_round_trip(crate::catalog::status_display(v.status), t6);
    lemma_status_display_parses(v.status);
    lemma_parse_lit_prepend(",\"internal_ip\":"@, t7);
    lemma_opt_string_round_trip(v.internal_ip, t8);
    lemma_parse_lit_prepend(",\"external_ip\":"@, t9);
    lemma_opt_string_round_trip(v.external_ip, t10);
    lemma_parse_lit_prepend(",\"runtime\":"@, t11);
    lemma_quoted_round_trip(runtime_display(v.runtime), t12);
    lemma_runtime_display_parses(v.runtime);
    lemma_parse_lit_prepend(",\"node_name\":"@, t13);
    lemma_opt_string_round_trip(v.node_name, t14);
    lemma_parse_lit_prepend(",\"storage_pool\":"@, t15);
    lemma_opt_string_round_trip(v.storage_pool, t16);
    lemma_parse_lit_prepend("}"@, t17);
}

#[verifier::rlimit(100)]
#[verifier::spinoff_prover]
fn append_instance_back(out: &mut String, x: &Instance)
    ensures
        final(out)@ == old(out)@ + render_instance_back(x@),
{
    out.append(",\"password\":");
    append_rendered_string(out, x.password.as_str());
    out.append(",\"stage\":");
    append_rendered_string(out, x.stage.as_str());
    out.append(",\"status\":");
    let t_status = x.status.to_string();
    append_rendered_string(out, t_status.as_str());
    out.append(",\"internal_ip\":");
    append_opt_string(out, &x.internal_ip);
    out.append(",\"external_ip\":");
    append_opt_string(out, &x.external_ip);
    out.append(",\"runtime\":");
    append_rendered_string(out, x.runtime.as_str());
    out.append(",\"node_name\":");
    append_opt_string(out, &x.node_name);
    out.append(",\"storage_pool\":");
    append_opt_string(out, &x.storage_pool);
    out.append("}");
    proof {
        assert(out@ =~= old(out)@ + render_instance_back(x@));
    }
}

/// Renders one instance record as a JSON object.
#[verifier::opaque]
pub open spec fn render_instance(v: InstanceView) -> Seq<char> {
    render_instance_front(v) + render_instance_back(v)
}

#[verifier::opaque]
pub open spec fn spec_parse_instance(s0: Seq<char>) -> Option<(InstanceView, Seq<char>)> {
    match spec_parse_instance_front(s0) {
        None => None,
        Some((f, s1)) => match spec_parse_instance_back(s1) {
            None => None,
            Some((b, s2)) => Some(
                (
                    InstanceView {
                        name: f.name,
                        cpu: f.cpu,
                        memory: f.memory,
                        disk_size: f.disk_size,
                        image: f.image,
                        hostname: f.hostname,
                        ssh_host: f.ssh_host,
                        ssh_port: f.ssh_port,
                        password: b.password,
                        stage: b.stage,
                        status: b.status,
                        internal_ip: b.internal_ip,
                        external_ip: b.external_ip,
                        runtime: b.runtime,
                        node_name: b.node_name,
                        storage_pool: b.storage_pool,
                    },
                    s2,
                ),
            ),
        },
    }
}

#[verifier::rlimit(100)]
#[verifier::spinoff_prover]
pub proof fn lemma_instance_round_trip(v: InstanceView, rest: Seq<char>)
    requires
        instance_view_bounded(v),
    ensures
        spec_parse_instance(render_instance(v) + rest) == Some::<(InstanceView, Seq<char>)>(
            (v, rest),
        ),
{
    reveal(render_instance);
    reveal(spec_parse_instance);
    let t1 = render_instance_back(v) + rest;
    assert(render_instance(v) + rest =~= render_instance_front(v) + t1);
    assert(t1.len() >= 1 && !is_digit_char(t1[0])) by {
        reveal_strlit(",\"password\":");
        assert(t1[0] == (",\"password\":"@)[0]);
    }
    lemma_instance_front_round_trip(v, t1);
    lemma_instance_back_round_trip(v, rest);
}

#[verifier::rlimit(100)]
#[verifier::spinoff_prover]
fn append_instance(out: &mut String, x: &Instance)
    ensures
        final(out)@ == old(out)@ + render_instance(x@),
{
    proof {
        reveal(render_instance);
    }
    append_instance_front(out, x);
    append_instance_back(out, x);
    proof {
        assert(out@ =~= old(out)@ + render_instance(x@));
    }
}

/// Parses one instance record.
#[verifier::rlimit(100)]
#[verifier::spinoff_prover]
fn parse_instance_exec<'a>(s0: &'a str) -> (r: Option<(Instance, &'a str)>)
    ensures
        match r {
            Some((x, rest)) => spec_parse_instance(s0@) == Some::<(InstanceView, Seq<char>)>(
                (x@, rest@),
            ),
            None => spec_parse_instance(s0@) is None,
        },
{
    proof {
        reveal(spec_parse_instance);
    }
    let s1 = match parse_lit(s0, "{\"name\":") {
        Some(x) => x,
        None => {
            return None;
        },
    };
    let (name, s2) = match parse_quoted(s1) {
        Some(x) => x,
        None => {
            return None;
        },
    };
    let s3 = match parse_lit(s2, ",\"cpu\":") {
        Some(x) => x,
        None => {
            return None;
        },
    };
    let (cpu, s4) = match parse_usize_front(s3) {
        Some(x) => x,
        None => {
            return None;
        },
    };
    let s5 = match parse_lit(s4, ",\"memory\":") {
        Some(x) => x,
        None => {
            return None;
        },
    };
    let (memory, s6) = match parse_usize_front(s5) {
        Some(x) => x,
        None => {
            return None;
        },
    };
    let s7 = match parse_lit(s6, ",\"disk_size\":") {
        Some(x) => x,
        None => {
            return None;
        },
    };
    let (disk_size, s8) = match parse_usize_front(s7) {
        Some(x) => x,
        None => {
            return None;
        },
    };
    let s9 = match parse_lit(s8, ",\"image\":") {
        Some(x) => x,
        None => {
            return None;
        },
    };
    let (image_body, s10) = match parse_quoted(s9) {
        Some(x) => x,
        None => {
            return None;
        },
    };
    let image = match image_from_display_exec(&image_body) {
        Some(x) => x,
        None => {
            return None;
        },
    };
    let s11 = match parse_lit(s10, ",\"hostname\":") {
        Some(x) => x,
        None => {
            return None;
        },
    };
    let (hostname, s12) = match parse_quoted(s11) {
        Some(x) => x,
        None => {
            return None;
        },
    };
    let s13 = match parse_lit(s12, ",\"ssh_host\":") {
        Some(x) => x,
        None => {
            return None;
        },
    };
    let (ssh_host, s14) = match parse_opt_string(s13) {
        Some(x) => x,
        None => {
            return None;
        },
    };
    let s15 = match parse_lit(s14, ",\"ssh_port\":") {
        Some(x) => x,
        None => {
            return None;
        },
    };
    let (ssh_port, s16) = match parse_opt_i32_front(s15) {
        Some(x) => x,
        None => {
            return None;
        },
    };
    let s17 = match parse_lit(s16, ",\"password\":") {
        Some(x) => x,
        None => {
            return None;
        },
    };
    let (password, s18) = match parse_quoted(s17) {
        Some(x) => x,
        None => {
            return None;
        },
    };
    let s19 = match parse_lit(s18, ",\"stage\":") {
        Some(x) => x,
        None => {
            return None;
        },
    };
    let (stage_body, s20) = match parse_quoted(s19) {
        Some(x) => x,
        None => {
            return None;
        },
    };
    let stage = match InstanceStage::parse(stage_body.as_str()) {
        Some(x) => x,
        None => {
            return None;
        },
    };
    let s21 = match parse_lit(s20, ",\"status\":") {
        Some(x) => x,
        None => {
            return None;
        },
    };
    let (status_body, s22) = match parse_quoted(s21) {
        Some(x) => x,
        None => {
            return None;
        },
    };
    let status = match InstanceStatus::parse(status_body.as_str()) {
        Some(x) => x,
        None => {
            return None;
        },
    };
    let s23 = match parse_lit(s22, ",\"internal_ip\":") {
        Some(x) => x,
        None => {
            return None;
        },
    };
    let (internal_ip, s24) = match parse_opt_string(s23) {
        Some(x) => x,
        None => {
            return None;
        },
    };
    let s25 = match parse_lit(s24, ",\"external_ip\":") {
        Some(x) => x,
        None => {
            return None;
        },
    };
    let (external_ip, s26) = match parse_opt_string(s25) {
        Some(x) => x,
        None => {
            return None;
        },
    };
    let s27 = match parse_lit(s26, ",\"runtime\":") {
        Some(x) => x,
        None => {
            return None;
        },
    };
    let (runtime_body, s28) = match parse_quoted(s27) {
        Some(x) => x,
        None => {
            return None;
        },
    };
    let runtime = match runtime_from_display_exec(&runtime_body) {
        Some(x) => x,
        None => {
            return None;
        },
    };
    let s29 = match parse_lit(s28, ",\"node_name\":") {
        Some(x) => x,
        None => {
            return None;
        },
    };
    let (node_name, s30) = match parse_opt_string(s29) {
        Some(x) => x,
        None => {
            return None;
        },
    };
    let s31 = match parse_lit(s30, ",\"storage_pool\":") {
        Some(x) => x,
        None => {
            return None;
        },
    };
    let (storage_pool, s32) = match parse_opt_string(s31) {
        Some(x) => x,
        None => {
            return None;
        },
    };
    let s33 = match parse_lit(s32, "}") {
        Some(x) => x,
        None => {
            return None;
        },
    };
    Some((Instance { name, cpu, memory, disk_size, image, hostname, ssh_host, ssh_port, password, stage, status, internal_ip, external_ip, runtime, node_name, storage_pool }, s33))
}

/// Renders one user record as a JSON object.
#[verifier::opaque]
pub open spec fn render_user(v: UserView) -> Seq<char> {
    "{\"username\":"@ + render_string(v.username) + ",\"cpu_quota\":"@ + render_usize(v.cpu_quota) + ",\"memory_quota\":"@ + render_usize(v.memory_quota) + ",\"disk_quota\":"@ + render_usize(v.disk_quota) + ",\"instance_quota\":"@ + render_usize(v.instance_quota) + ",\"instances\":["@ + render_instance_items(v.instances) + "}"@
}


#[verifier::opaque]
pub open spec fn spec_parse_user(s0: Seq<char>) -> Option<(UserView, Seq<char>)> {
    match spec_parse_lit(s0, "{\"username\":"@) {
        None => None,
        Some(s1) => {
        match spec_parse_quoted(s1) {
            None => None,
            Some((username, s2)) => {
            match spec_parse_lit(s2, ",\"cpu_quota\":"@) {
                None => None,
                Some(s3) => {
                match spec_parse_usize(s3) {
                    None => None,
                    Some((cpu_quota, s4)) => {
                    match spec_parse_lit(s4, ",\"memory_quota\":"@) {
                        None => None,
                        Some(s5) => {
                        match spec_parse_usize(s5) {
                            None => None,
                            Some((memory_quota, s6)) => {
                            match spec_parse_lit(s6, ",\"disk_quota\":"@) {
                                None => None,
                                Some(s7) => {
                                match spec_parse_usize(s7) {
                                    None => None,
                                    Some((disk_quota, s8)) => {
                                    match spec_parse_lit(s8, ",\"instance_quota\":"@) {
                                        None => None,
                                        Some(s9) => {
                                        match spec_parse_usize(s9) {
                                            None => None,
                                            Some((instance_quota, s10)) => {
                                            match spec_parse_lit(s10, ",\"instances\":["@) {
                                                None => None,
                                                Some(s11) => {
                                                match spec_parse_instances(s11) {
                                                    None => None,
                                                    Some((instances, s12)) => {
                                                    match spec_parse_lit(s12, "}"@) {
                                                        None => None,
                                                        Some(s13) => {
                                                        Some((UserView { username, cpu_quota, memory_quota, disk_quota, instance_quota, instances }, s13))
                                                        },
                                                    }
                                                    },
                                                }
                                                },
                                            }
                                            },
                                        }
                                        },
                                    }
                                    },
                                }
                                },
                            }
                            },
                        }
                        },
                    }
                    },
                }
                },
            }
            },
        }
        },
    }
}

/// Number fields fit the machine's integers.
pub open spec fn user_view_bounded(v: UserView) -> bool {
    &&& 0 <= v.cpu_quota <= usize::MAX
    &&& 0 <= v.memory_quota <= usize::MAX
    &&& 0 <= v.disk_quota <= usize::MAX
    &&& 0 <= v.instance_quota <= usize::MAX
    &&& forall|j: int| 0 <= j < v.instances.len() ==> instance_view_bounded(
        #[trigger] v.instances[j],
    )
}


#[verifier::rlimit(100)]
#[verifier::spinoff_prover]
pub proof fn lemma_user_round_trip(v: UserView, rest: Seq<char>)
    requires
        user_view_bounded(v),
    ensures
        spec_parse_user(render_user(v) + rest) == Some::<(UserView, Seq<char>)>((v, rest)),
{
    reveal(render_user);
    reveal(spec_parse_user);
    reveal_strlit(",\"cpu_quota\":");
    reveal_strlit(",\"disk_quota\":");
    reveal_strlit(",\"instance_quota\":");
    reveal_strlit(",\"instances\":[");
    reveal_strlit(",\"memory_quota\":");
    reveal_strlit("{\"username\":");
    reveal_strlit("}");
    let t13 = rest;
    let t12 = "}"@ + t13;
    let t11 = render_instance_items(v.instances) + t12;
    let t10 = ",\"instances\":["@ + t11;
    let t9 = render_usize(v.instance_quota) + t10;
    let t8 = ",\"instance_quota\":"@ + t9;
    let t7 = render_usize(v.disk_quota) + t8;
    let t6 = ",\"disk_quota\":"@ + t7;
    let t5 = render_usize(v.memory_quota) + t6;
    let t4 = ",\"memory_quota\":"@ + t5;
    let t3 = render_usize(v.cpu_quota) + t4;
    let t2 = ",\"cpu_quota\":"@ + t3;
    let t1 = render_string(v.username) + t2;
    let t0 = "{\"username\":"@ + t1;
    assert(render_user(v) + rest =~= t0);
    lemma_parse_lit_prepend("{\"username\":"@, t1);
    lemma_quoted_round_trip(v.username, t2);
    lemma_parse_lit_prepend(",\"cpu_quota\":"@, t3);
    assert(!is_digit_char((",\"memory_quota\":"@)[0]));
    lemma_lit_starts_nondigit(",\"memory_quota\":"@, t5);
    lemma_usize_round_trip(v.cpu_quota, t4);
    lemma_parse_lit_prepend(",\"memory_quota\":"@, t5);
    assert(!is_digit_char((",\"disk_quota\":"@)[0]));
    lemma_lit_starts_nondigit(",\"disk_quota\":"@, t7);
    lemma_usize_round_trip(v.memory_quota, t6);
    lemma_parse_lit_prepend(",\"disk_quota\":"@, t7);
    assert(!is_digit_char((",\"instance_quota\":"@)[0]));
    lemma_lit_starts_nondigit(",\"instance_quota\":"@, t9);
    lemma_usize_round_trip(v.disk_quota, t8);
    lemma_parse_lit_prepend(",\"instance_quota\":"@, t9);
    assert(!is_digit_char((",\"instances\":["@)[0]));
    lemma_lit_starts_nondigit(",\"instances\":["@, t11);
    lemma_usize_round_trip(v.instance_quota, t10);
    lemma_parse_lit_prepend(",\"instances\":["@, t11);
    lemma_instances_round_trip(v.instances, t12);
    lemma_parse_lit_prepend("}"@, t13);
}


/// Appends the rendering of one user record.
#[verifier::rlimit(100)]
#[verifier::spinoff_prover]
fn append_user(out: &mut String, x: &User)
    ensures
        final(out)@ == old(out)@ + render_user(x@),
{
    proof {
        reveal(render_user);
    }
    out.append("{\"username\":");
    append_rendered_string(out, x.username.as_str());
    out.append(",\"cpu_quota\":");
    let t_cpu_quota = usize_to_string(x.cpu_quota);
    out.append(t_cpu_quota.as_str());
    out.append(",\"memory_quota\":");
    let t_memory_quota = usize_to_string(x.memory_quota);
    out.append(t_memory_quota.as_str());
    out.append(",\"disk_quota\":");
    let t_disk_quota = usize_to_string(x.disk_quota);
    out.append(t_disk_quota.as_str());
    out.append(",\"instance_quota\":");
    let t_instance_quota = usize_to_string(x.instance_quota);
    out.append(t_instance_quota.as_str());
    out.append(",\"instances\":[");
    append_instances(out, &x.instances, 0);
    proof {
        assert(x@.instances.skip(0) =~= x@.instances);
    }
    out.append("}");
    proof {
        assert(out@ =~= old(out)@ + render_user(x@));
    }
}


/// Parses one user record.
#[verifier::rlimit(100)]
#[verifier::spinoff_prover]
fn parse_user_exec<'a>(s0: &'a str) -> (r: Option<(User, &'a str)>)
    ensures
        match r {
            Some((x, rest)) => spec_parse_user(s0@) == Some::<(UserView, Seq<char>)>(
                (x@, rest@),
            ),
            None => spec_parse_user(s0@) is None,
        },
{
    proof {
        reveal(spec_parse_user);
    }
    let s1 = match parse_lit(s0, "{\"username\":") {
        Some(x) => x,
        None => {
            return None;
        },
    };
    let (username, s2) = match parse_quoted(s1) {
        Some(x) => x,
        None => {
            return None;
        },
    };
    let s3 = match parse_lit(s2, ",\"cpu_quota\":") {
        Some(x) => x,
        None => {
            return None;
        },
    };
    let (cpu_quota, s4) = match parse_usize_front(s3) {
        Some(x) => x,
        None => {
            return None;
        },
    };
    let s5 = match parse_lit(s4, ",\"memory_quota\":") {
        Some(x) => x,
        None => {
            return None;
        },
    };
    let (memory_quota, s6) = match parse_usize_front(s5) {
        Some(x) => x,
        None => {
            return None;
        },
    };
    let s7 = match parse_lit(s6, ",\"disk_quota\":") {
        Some(x) => x,
        None => {
            return None;
        },
    };
    let (disk_quota, s8) = match parse_usize_front(s7) {
        Some(x) => x,
        None => {
            return None;
        },
    };
    let s9 = match parse_lit(s8, ",\"instance_quota\":") {
        Some(x) => x,
        None => {
            return None;
        },
    };
    let (instance_quota, s10) = match parse_usize_front(s9) {
        Some(x) => x,
        None => {
            return None;
        },
    };
    let s11 = match parse_lit(s10, ",\"instances\":[") {
        Some(x) => x,
        None => {
            return None;
        },
    };
    let (instances, s12) = match parse_instances_list(s11) {
        Some(x) => x,
        None => {
            return None;
        },
    };
    let s13 = match parse_lit(s12, "}") {
        Some(x) => x,
        None => {
            return None;
        },
    };
    Some((User { username, cpu_quota, memory_quota, disk_quota, instance_quota, instances }, s13))
}

/// Renders one node record as a JSON object.
#[verifier::opaque]
pub open spec fn render_node(v: NodeView) -> Seq<char> {
    "{\"name\":"@ + render_string(v.name) + ",\"storage_pools\":["@ + render_pool_items(v.storage_pools) + ",\"runtimes\":["@ + render_runtime_items(v.runtimes) + ",\"cpu_total\":"@ + render_usize(v.cpu_total) + ",\"cpu_allocated\":"@ + render_usize(v.cpu_allocated) + ",\"memory_total\":"@ + render_usize(v.memory_total) + ",\"memory_allocated\":"@ + render_usize(v.memory_allocated) + ",\"storage_total\":"@ + render_usize(v.storage_total) + ",\"storage_used\":"@ + render_usize(v.storage_used) + ",\"storage_allocated\":"@ + render_usize(v.storage_allocated) + "}"@
}


#[verifier::opaque]
pub open spec fn spec_parse_node(s0: Seq<char>) -> Option<(NodeView, Seq<char>)> {
    match spec_parse_lit(s0, "{\"name\":"@) {
        None => None,
        Some(s1) => {
        match spec_parse_quoted(s1) {
            None => None,
            Some((name, s2)) => {
            match spec_parse_lit(s2, ",\"storage_pools\":["@) {
                None => None,
                Some(s3) => {
                match spec_parse_pools(s3) {
                    None => None,
                    Some((storage_pools, s4)) => {
                    match spec_parse_lit(s4, ",\"runtimes\":["@) {
                        None => None,
                        Some(s5) => {
                        match spec_parse_runtimes(s5) {
                            None => None,
                            Some((runtimes, s6)) => {
                            match spec_parse_lit(s6, ",\"cpu_total\":"@) {
                                None => None,
                                Some(s7) => {
                                match spec_parse_usize(s7) {
                                    None => None,
                                    Some((cpu_total, s8)) => {
                                    match spec_parse_lit(s8, ",\"cpu_allocated\":"@) {
                                        None => None,
                                        Some(s9) => {
                                        match spec_parse_usize(s9) {
                                            None => None,
                                            Some((cpu_allocated, s10)) => {
                                            match spec_parse_lit(s10, ",\"memory_total\":"@) {
                                                None => None,
                                                Some(s11) => {
                                                match spec_parse_usize(s11) {
                                                    None => None,
                                                    Some((memory_total, s12)) => {
                                                    match spec_parse_lit(s12, ",\"memory_allocated\":"@) {
                                                        None => None,
                                                        Some(s13) => {
                                                        match spec_parse_usize(s13) {
                                                            None => None,
                                                            Some((memory_allocated, s14)) => {
                                                            match spec_parse_lit(s14, ",\"storage_total\":"@) {
                                                                None => None,
                                                                Some(s15) => {
                                                                match spec_parse_usize(s15) {
                                                                    None => None,
                                                                    Some((storage_total, s16)) => {
                                                                    match spec_parse_lit(s16, ",\"storage_used\":"@) {
                                                                        None => None,
                                                                        Some(s17) => {
                                                                        match spec_parse_usize(s17) {
                                                                            None => None,
                                                                            Some((storage_used, s18)) => {
                                                                            match spec_parse_lit(s18, ",\"storage_allocated\":"@) {
                                                                                None => None,
                                                                                Some(s19) => {
                                                                                match spec_parse_usize(s19) {
                                                                                    None => None,
                                                                                    Some((storage_allocated, s20)) => {
                                                                                    match spec_parse_lit(s20, "}"@) {
                                                                                        None => None,
                                                                                        Some(s21) => {
                                                                                        Some((NodeView { name, storage_pools, runtimes, cpu_total, cpu_allocated, memory_total, memory_allocated, storage_total, storage_used, storage_allocated }, s21))
                                                                                        },
                                                                                    }
                                                                                    },
                                                                                }
                                                                                },
                                                                            }
                                                                            },
                                                                        }
                                                                        },
                                                                    }
                                                                    },
                                                                }
                                                                },
                                                            }
                                                            },
                                                        }
                                                        },
                                                    }
                                                    },
                                                }
                                                },
                                            }
                                            },
                                        }
                                        },
                                    }
                                    },
                                }
                                },
                            }
                            },
                        }
                        },
                    }
                    },
                }
                },
            }
            },
        }
        },
    }
}

/// Number fields fit the machine's integers.
pub open spec fn node_view_bounded(v: NodeView) -> bool {
    &&& 0 <= v.cpu_total <= usize::MAX
    &&& 0 <= v.cpu_allocated <= usize::MAX
    &&& 0 <= v.memory_total <= usize::MAX
    &&& 0 <= v.memory_allocated <= usize::MAX
    &&& 0 <= v.storage_total <= usize::MAX
    &&& 0 <= v.storage_used <= usize::MAX
    &&& 0 <= v.storage_allocated <= usize::MAX
    &&& forall|j: int| 0 <= j < v.storage_pools.len() ==> pool_view_bounded(
        #[trigger] v.storage_pools[j],
    )
}


#[verifier::rlimit(100)]
#[verifier::spinoff_prover]
pub proof fn lemma_node_round_trip(v: NodeView, rest: Seq<char>)
    requires
        node_view_bounded(v),
    ensures
        spec_parse_node(render_node(v) + rest) == Some::<(NodeView, Seq<char>)>((v, rest)),
{
    reveal(render_node);
    reveal(spec_parse_node);
    reveal_strlit(",\"cpu_allocated\":");
    reveal_strlit(",\"cpu_total\":");
    reveal_strlit(",\"memory_allocated\":");
    reveal_strlit(",\"memory_total\":");
    reveal_strlit(",\"runtimes\":[");
    reveal_strlit(",\"storage_allocated\":");
    reveal_strlit(",\"storage_pools\":[");
    reveal_strlit(",\"storage_total\":");
    reveal_strlit(",\"storage_used\":");
    reveal_strlit("{\"name\":");
    reveal_strlit("}");
    let t21 = rest;
    let t20 = "}"@ + t21;
    let t19 = render_usize(v.storage_allocated) + t20;
    let t18 = ",\"storage_allocated\":"@ + t19;
    let t17 = render_usize(v.storage_used) + t18;
    let t16 = ",\"storage_used\":"@ + t17;
    let t15 = render_usize(v.storage_total) + t16;
    let t14 = ",\"storage_total\":"@ + t15;
    let t13 = render_usize(v.memory_allocated) + t14;
    let t12 = ",\"memory_allocated\":"@ + t13;
    let t11 = render_usize(v.memory_total) + t12;
    let t10 = ",\"memory_total\":"@ + t11;
    let t9 = render_usize(v.cpu_allocated) + t10;
    let t8 = ",\"cpu_allocated\":"@ + t9;
    let t7 = render_usize(v.cpu_total) + t8;
    let t6 = ",\"cpu_total\":"@ + t7;
    let t5 = render_runtime_items(v.runtimes) + t6;
    let t4 = ",\"runtimes\":["@ + t5;
    let t3 = render_pool_items(v.storage_pools) + t4;
    let t2 = ",\"storage_pools\":["@ + t3;
    let t1 = render_string(v.name) + t2;
    let t0 = "{\"name\":"@ + t1;
    assert(render_node(v) + rest =~= t0);
    lemma_parse_lit_prepend("{\"name\":"@, t1);
    lemma_quoted_round_trip(v.name, t2);
    lemma_parse_lit_prepend(",\"storage_pools\":["@, t3);
    lemma_pools_round_trip(v.storage_pools, t4);
    lemma_parse_lit_prepend(",\"runtimes\":["@, t5);
    lemma_runtimes_round_trip(v.runtimes, t6);
    lemma_parse_lit_prepend(",\"cpu_total\":"@, t7);
    assert(!is_digit_char((",\"cpu_allocated\":"@)[0]));
    lemma_lit_starts_nondigit(",\"cpu_allocated\":"@, t9);
    lemma_usize_round_trip(v.cpu_total, t8);
    lemma_parse_lit_prepend(",\"cpu_allocated\":"@, t9);
    assert(!is_digit_char((",\"memory_total\":"@)[0]));
    lemma_lit_starts_nondigit(",\"memory_total\":"@, t11);
    lemma_usize_round_trip(v.cpu_allocated, t10);
    lemma_parse_lit_prepend(",\"memory_total\":"@, t11);
    assert(!is_digit_char((",\"memory_allocated\":"@)[0]));
    lemma_lit_starts_nondigit(",\"memory_allocated\":"@, t13);
    lemma_usize_round_trip(v.memory_total, t12);
    lemma_parse_lit_prepend(",\"memory_allocated\":"@, t13);
    assert(!is_digit_char((",\"storage_total\":"@)[0]));
    lemma_lit_starts_nondigit(",\"storage_total\":"@, t15);
    lemma_usize_round_trip(v.memory_allocated, t14);
    lemma_parse_lit_prepend(",\"storage_total\":"@, t15);
    assert(!is_digit_char((",\"storage_used\":"@)[0]));
    lemma_lit_starts_nondigit(",\"storage_used\":"@, t17);
    lemma_usize_round_trip(v.storage_total, t16);
    lemma_parse_lit_prepend(",\"storage_used\":"@, t17);
    assert(!is_digit_char((",\"storage_allocated\":"@)[0]));
    lemma_lit_starts_nondigit(",\"storage_allocated\":"@, t19);
    lemma_usize_round_trip(v.storage_used, t18);
    lemma_parse_lit_prepend(",\"storage_allocated\":"@, t19);
    assert(!is_digit_char(("}"@)[0]));
    lemma_lit_starts_nondigit("}"@, t21);
    lemma_usize_round_trip(v.storage_allocated, t20);
    lemma_parse_lit_prepend("}"@, t21);
}


/// Appends the rendering of one node record.
#[verifier::rlimit(100)]
#[verifier::spinoff_prover]
fn append_node(out: &mut String, x: &Node)
    ensures
        final(out)@ == old(out)@ + render_node(x@),
{
    proof {
        reveal(render_node);
    }
    out.append("{\"name\":");
    append_rendered_string(out, x.name.as_str());
    out.append(",\"storage_pools\":[");
    append_pools(out, &x.storage_pools, 0);
    proof {
        assert(x@.storage_pools.skip(0) =~= x@.storage_pools);
    }
    out.append(",\"runtimes\":[");
    append_runtimes(out, &x.runtimes, 0);
    proof {
        assert(x@.runtimes.skip(0) =~= x@.runtimes);
    }
    out.append(",\"cpu_total\":");
    let t_cpu_total = usize_to_string(x.cpu_total);
    out.append(t_cpu_total.as_str());
    out.append(",\"cpu_allocated\":");
    let t_cpu_allocated = usize_to_string(x.cpu_allocated);
    out.append(t_cpu_allocated.as_str());
    out.append(",\"memory_total\":");
    let t_memory_total = usize_to_string(x.memory_total);
    out.append(t_memory_total.as_str());
    out.append(",\"memory_allocated\":");
    let t_memory_allocated = usize_to_string(x.memory_allocated);
    out.append(t_memory_allocated.as_str());
    out.append(",\"storage_total\":");
    let t_storage_total = usize_to_string(x.storage_total);
    out.append(t_storage_total.as_str());
    out.append(",\"storage_used\":");
    let t_storage_used = usize_to_string(x.storage_used);
    out.append(t_storage_used.as_str());
    out.append(",\"storage_allocated\":");
    let t_storage_allocated = usize_to_string(x.storage_allocated);
    out.append(t_storage_allocated.as_str());
    out.append("}");
    proof {
        assert(out@ =~= old(out)@ + render_node(x@));
    }
}


/// Parses one node record.
#[verifier::rlimit(100)]
#[verifier::spinoff_prover]
fn parse_node_exec<'a>(s0: &'a str) -> (r: Option<(Node, &'a str)>)
    ensures
        match r {
            Some((x, rest)) => spec_parse_node(s0@) == Some::<(NodeView, Seq<char>)>(
                (x@, rest@),
            ),
            None => spec_parse_node(s0@) is None,
        },
{
    proof {
        reveal(spec_parse_node);
    }
    let s1 = match parse_lit(s0, "{\"name\":") {
        Some(x) => x,
        None => {
            return None;
        },
    };
    let (name, s2) = match parse_quoted(s1) {
        Some(x) => x,
        None => {
            return None;
        },
    };
    let s3 = match parse_lit(s2, ",\"storage_pools\":[") {
        Some(x) => x,
        None => {
            return None;
        },
    };
    let (storage_pools, s4) = match parse_pools_list(s3) {
        Some(x) => x,
        None => {
            return None;
        },
    };
    let s5 = match parse_lit(s4, ",\"runtimes\":[") {
        Some(x) => x,
        None => {
            return None;
        },
    };
    let (runtimes, s6) = match parse_runtimes_list(s5) {
        Some(x) => x,
        None => {
            return None;
        },
    };
    let s7 = match parse_lit(s6, ",\"cpu_total\":") {
        Some(x) => x,
        None => {
            return None;
        },
    };
    let (cpu_total, s8) = match parse_usize_front(s7) {
        Some(x) => x,
        None => {
            return None;
        },
    };
    let s9 = match parse_lit(s8, ",\"cpu_allocated\":") {
        Some(x) => x,
        None => {
            return None;
        },
    };
    let (cpu_allocated, s10) = match parse_usize_front(s9) {
        Some(x) => x,
        None => {
            return None;
        },
    };
    let s11 = match parse_lit(s10, ",\"memory_total\":") {
        Some(x) => x,
        None => {
            return None;
        },
    };
    let (memory_total, s12) = match parse_usize_front(s11) {
        Some(x) => x,
        None => {
            return None;
        },
    };
    let s13 = match parse_lit(s12, ",\"memory_allocated\":") {
        Some(x) => x,
        None => {
            return None;
        },
    };
    let (memory_allocated, s14) = match parse_usize_front(s13) {
        Some(x) => x,
        None => {
            return None;
        },
    };
    let s15 = match parse_lit(s14, ",\"storage_total\":") {
        Some(x) => x,
        None => {
            return None;
        },
    };
    let (storage_total, s16) = match parse_usize_front(s15) {
        Some(x) => x,
        None => {
            return None;
        },
    };
    let s17 = match parse_lit(s16, ",\"storage_used\":") {
        Some(x) => x,
        None => {
            return None;
        },
    };
    let (storage_used, s18) = match parse_usize_front(s17) {
        Some(x) => x,
        None => {
            return None;
        },
    };
    let s19 = match parse_lit(s18, ",\"storage_allocated\":") {
        Some(x) => x,
        None => {
            return None;
        },
    };
    let (storage_allocated, s20) = match parse_usize_front(s19) {
        Some(x) => x,
        None => {
            return None;
        },
    };
    let s21 = match parse_lit(s20, "}") {
        Some(x) => x,
        None => {
            return None;
        },
    };
    Some((Node { name, storage_pools, runtimes, cpu_total, cpu_allocated, memory_total, memory_allocated, storage_total, storage_used, storage_allocated }, s21))
}

/// Renders one state record as a JSON object.
pub open spec fn render_state(v: StateView) -> Seq<char> {
    "{\"users\":["@ + render_user_items(v.users) + ",\"nodes\":["@ + render_node_items(v.nodes) + "}"@
}


pub open spec fn spec_parse_state(s0: Seq<char>) -> Option<(StateView, Seq<char>)> {
    match spec_parse_lit(s0, "{\"users\":["@) {
        None => None,
        Some(s1) => {
        match spec_parse_users(s1) {
            None => None,
            Some((users, s2)) => {
            match spec_parse_lit(s2, ",\"nodes\":["@) {
                None => None,
                Some(s3) => {
                match spec_parse_nodes(s3) {
                    None => None,
                    Some((nodes, s4)) => {
                    match spec_parse_lit(s4, "}"@) {
                        None => None,
                        Some(s5) => {
                        Some((StateView { users, nodes }, s5))
                        },
                    }
                    },
                }
                },
            }
            },
        }
        },
    }
}

/// Number fields fit the machine's integers.
pub open spec fn state_view_bounded(v: StateView) -> bool {
    &&& forall|j: int| 0 <= j < v.users.len() ==> user_view_bounded(#[trigger] v.users[j])
    &&& forall|j: int| 0 <= j < v.nodes.len() ==> node_view_bounded(#[trigger] v.nodes[j])
}


#[verifier::rlimit(100)]
#[verifier::spinoff_prover]
pub proof fn lemma_state_round_trip(v: StateView, rest: Seq<char>)
    requires
        state_view_bounded(v),
    ensures
        spec_parse_state(render_state(v) + rest) == Some::<(StateView, Seq<char>)>((v, rest)),
{
    reveal_strlit(",\"nodes\":[");
    reveal_strlit("{\"users\":[");
    reveal_strlit("}");
    let t5 = rest;
    let t4 = "}"@ + t5;
    let t3 = render_node_items(v.nodes) + t4;
    let t2 = ",\"nodes\":["@ + t3;
    let t1 = render_user_items(v.users) + t2;
    let t0 = "{\"users\":["@ + t1;
    assert(render_state(v) + rest =~= t0);
    lemma_parse_lit_prepend("{\"users\":["@, t1);
    lemma_users_round_trip(v.users, t2);
    lemma_parse_lit_prepend(",\"nodes\":["@, t3);
    lemma_nodes_round_trip(v.nodes, t4);
    lemma_parse_lit_prepend("}"@, t5);
}


/// Appends the rendering of one state record.
#[verifier::rlimit(100)]
#[verifier::spinoff_prover]
fn append_state(out: &mut String, x: &State)
    ensures
        final(out)@ == old(out)@ + render_state(x@),
{
    out.append("{\"users\":[");
    append_users(out, &x.users, 0);
    proof {
        assert(x@.users.skip(0) =~= x@.users);
    }
    out.append(",\"nodes\":[");
    append_nodes(out, &x.nodes, 0);
    proof {
        assert(x@.nodes.skip(0) =~= x@.nodes);
    }
    out.append("}");
    proof {
        assert(out@ =~= old(out)@ + render_state(x@));
    }
}


/// Parses one state record.
#[verifier::rlimit(100)]
#[verifier::spinoff_prover]
fn parse_state_exec<'a>(s0: &'a str) -> (r: Option<(State, &'a str)>)
    ensures
        match r {
            Some((x, rest)) => spec_parse_state(s0@) == Some::<(StateView, Seq<char>)>(
                (x@, rest@),
            ),
            None => spec_parse_state(s0@) is None,
        },
{
    let s1 = match parse_lit(s0, "{\"users\":[") {
        Some(x) => x,
        None => {
            return None;
        },
    };
    let (users, s2) = match parse_users_list(s1) {
        Some(x) => x,
        None => {
            return None;
        },
    };
    let s3 = match parse_lit(s2, ",\"nodes\":[") {
        Some(x) => x,
        None => {
            return None;
        },
    };
    let (nodes, s4) = match parse_nodes_list(s3) {
        Some(x) => x,
        None => {
            return None;
        },
    };
    let s5 = match parse_lit(s4, "}") {
        Some(x) => x,
        None => {
            return None;
        },
    };
    Some((State { users, nodes }, s5))
}


// ---------------------------------------------------------------------------
// The whole document.
// ---------------------------------------------------------------------------

/// Views of executable state have all numbers within the machine's range.
pub proof fn lemma_state_view_bounded(s: &State)
    ensures
        state_view_bounded(s@),
{
    assert forall|j: int| 0 <= j < s@.users.len() implies user_view_bounded(
        #[trigger] s@.users[j],
    ) by {
        assert(s@.users[j] == s.users@[j]@);
        assert forall|i: int| 0 <= i < s@.users[j].instances.len() implies instance_view_bounded(
            #[trigger] s@.users[j].instances[i],
        ) by {
            assert(s@.users[j].instances[i] == s.users@[j].instances@[i]@);
        }
    }
    assert forall|j: int| 0 <= j < s@.nodes.len() implies node_view_bounded(
        #[trigger] s@.nodes[j],
    ) by {
        assert(s@.nodes[j] == s.nodes@[j]@);
        assert forall|p: int| 0 <= p < s@.nodes[j].storage_pools.len() implies pool_view_bounded(
            #[trigger] s@.nodes[j].storage_pools[p],
        ) by {
            assert(s@.nodes[j].storage_pools[p] == s.nodes@[j].storage_pools@[p]@);
        }
    }
}

/// Persistence round trip: the document rendered from any bounded state
/// parses back to exactly that state, with nothing left over. Together with
/// the commit protocol this says a committed state file reloads as the
/// state that was committed.
pub proof fn lemma_persistence_round_trip(v: StateView)
    requires
        state_view_bounded(v),
    ensures
        spec_parse_state(render_state(v)) == Some::<(StateView, Seq<char>)>(
            (v, Seq::<char>::empty()),
        ),
{
    lemma_state_round_trip(v, Seq::<char>::empty());
    assert(render_state(v) + Seq::<char>::empty() =~= render_state(v));
}

/// Renders the state as its on-disk document.
pub fn state_to_document(s: &State) -> (r: String)
    ensures
        r@ == render_state(s@),
{
    let mut out = String::new();
    append_state(&mut out, s);
    proof {
        assert(Seq::<char>::empty() + render_state(s@) =~= render_state(s@));
    }
    out
}

/// Reads the state back from its on-disk document; anything but a complete,
/// well-formed document is rejected.
pub fn state_from_document(doc: &str) -> (r: Option<State>)
    ensures
        match r {
            Some(x) => spec_parse_state(doc@) == Some::<(StateView, Seq<char>)>(
                (x@, Seq::<char>::empty()),
            ),
            None => spec_parse_state(doc@) is None || (spec_parse_state(doc@)->Some_0).1.len()
                != 0,
        },
{
    match parse_state_exec(doc) {
        Some((x, rest)) => {
            if rest.unicode_len() == 0 {
                proof {
                    assert(rest@ =~= Seq::<char>::empty());
                }
                Some(x)
            } else {
                None
            }
        },
        None => None,
    }
}

} // verus!
