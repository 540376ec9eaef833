//! Character classification and text conversions shared by the lexer, the
//! compiler and the virtual machine: decimal digit strings to integers and
//! integers back to their decimal text.

use vstd::prelude::*;
use vstd::string::StrSliceExecFns;

verus! {

// ---------------------------------------------------------------------------
// Character classes
// ---------------------------------------------------------------------------

/// Whitespace skipped between tokens.
pub open spec fn is_ws_char(c: char) -> bool {
    c == ' ' || (9 <= c as int && c as int <= 13)
}

/// A character that may start an identifier or keyword.
pub open spec fn is_ident_start_char(c: char) -> bool {
    ('a' as int <= c as int && c as int <= 'z' as int) || ('A' as int <= c as int && c as int
        <= 'Z' as int) || c == '_'
}

/// A decimal digit.
pub open spec fn is_digit_char(c: char) -> bool {
    '0' as int <= c as int && c as int <= '9' as int
}

/// A character that may continue an identifier or keyword.
pub open spec fn is_ident_char(c: char) -> bool {
    is_ident_start_char(c) || is_digit_char(c)
}

pub fn ws_char(c: char) -> (r: bool)
    ensures
        r == is_ws_char(c),
{
    let u = c as u32;
    u == 32 || (9 <= u && u <= 13)
}

pub fn ident_start_char(c: char) -> (r: bool)
    ensures
        r == is_ident_start_char(c),
{
    let u = c as u32;
    (97 <= u && u <= 122) || (65 <= u && u <= 90) || u == 95
}

pub fn digit_char(c: char) -> (r: bool)
    ensures
        r == is_digit_char(c),
{
    let u = c as u32;
    48 <= u && u <= 57
}

pub fn ident_char(c: char) -> (r: bool)
    ensures
        r == is_ident_char(c),
{
    ident_start_char(c) || digit_char(c)
}

// ---------------------------------------------------------------------------
// String equality
// ---------------------------------------------------------------------------

/// Character-for-character string comparison.
pub fn str_eq(a: &str, b: &str) -> (r: bool)
    ensures
        r == (a@ == b@),
{
    let alen = a.unicode_len();
    let blen = b.unicode_len();
    if alen != blen {
        assert(a@ != b@);
        return false;
    }
    let mut i: usize = 0;
    while i < alen
        invariant
            alen == a@.len(),
            alen == b@.len(),
            0 <= i <= alen,
            forall|j: int| 0 <= j < i ==> a@[j] == b@[j],
        decreases alen - i,
    {
        if a.get_char(i) != b.get_char(i) {
            return false;
        }
        i += 1;
    }
    assert(a@ =~= b@);
    true
}

// ---------------------------------------------------------------------------
// Decimal digit strings to integers
// ---------------------------------------------------------------------------

/// The numeric value of a string of decimal digits, most significant first.
pub open spec fn digits_val(s: Seq<char>) -> int
    decreases s.len(),
{
    if s.len() == 0 {
        0
    } else {
        digits_val(s.drop_last()) * 10 + (s.last() as int - '0' as int)
    }
}

pub open spec fn all_digits(s: Seq<char>) -> bool {
    forall|i: int| 0 <= i < s.len() ==> is_digit_char(#[trigger] s[i])
}

pub proof fn lemma_digits_val_nonneg(s: Seq<char>)
    requires
        all_digits(s),
    ensures
        digits_val(s) >= 0,
    decreases s.len(),
{
    if s.len() > 0 {
        assert(all_digits(s.drop_last()));
        lemma_digits_val_nonneg(s.drop_last());
    }
}

/// Extending a digit string to the right never decreases its value.
pub proof fn lemma_digits_val_prefix_le(s: Seq<char>, i: int)
    requires
        all_digits(s),
        0 <= i <= s.len(),
    ensures
        digits_val(s.take(i)) <= digits_val(s),
    decreases s.len() - i,
{
    if i < s.len() {
        let t = s.take(i + 1);
        assert(t.drop_last() =~= s.take(i));
        assert(all_digits(t));
        lemma_digits_val_nonneg(t.drop_last());
        assert(digits_val(t) == digits_val(s.take(i)) * 10 + (s[i] as int - '0' as int));
        assert(digits_val(s.take(i)) <= digits_val(t));
        lemma_digits_val_prefix_le(s, i + 1);
        assert(s.take(s.len() as int) =~= s);
    } else {
        assert(s.take(i) =~= s);
    }
}

/// The largest value of `v` with `10 * v + 7 <= i64::MAX`.
pub const I64_MAX_DIV_10: i64 = 922_337_203_685_477_580;

/// Reads a nonempty string of decimal digits as an `i64`; `None` exactly when
/// the value does not fit.
pub fn parse_digits_i64(s: &str) -> (r: Option<i64>)
    requires
        s@.len() >= 1,
        all_digits(s@),
    ensures
        match r {
            Some(v) => v as int == digits_val(s@),
            None => digits_val(s@) > i64::MAX,
        },
{
    let len = s.unicode_len();
    let mut v: i64 = 0;
    let mut i: usize = 0;
    proof {
        assert(s@.take(0) =~= Seq::<char>::empty());
    }
    while i < len
        invariant
            len == s@.len(),
            all_digits(s@),
            0 <= i <= len,
            0 <= v,
            v as int == digits_val(s@.take(i as int)),
        decreases len - i,
    {
        let c = s.get_char(i);
        assert(is_digit_char(c));
        let d: i64 = (c as u32 - 48) as i64;
        proof {
            let t = s@.take(i + 1);
            assert(t.drop_last() =~= s@.take(i as int));
            assert(digits_val(t) == digits_val(s@.take(i as int)) * 10 + d);
        }
        if v < I64_MAX_DIV_10 || (v == I64_MAX_DIV_10 && d <= 7) {
            v = v * 10 + d;
        } else {
            proof {
                assert(digits_val(s@.take(i + 1)) > i64::MAX);
                lemma_digits_val_prefix_le(s@, i + 1);
            }
            return None;
        }
        i += 1;
    }
    proof {
        assert(s@.take(len as int) =~= s@);
    }
    Some(v)
}

// ---------------------------------------------------------------------------
// Integers to decimal text
// ---------------------------------------------------------------------------

/// The decimal digit character for a value below ten.
pub open spec fn digit_of(d: int) -> char {
    if d == 0 {
        '0'
    } else if d == 1 {
        '1'
    } else if d == 2 {
        '2'
    } else if d == 3 {
        '3'
    } else if d == 4 {
        '4'
    } else if d == 5 {
        '5'
    } else if d == 6 {
        '6'
    } else if d == 7 {
        '7'
    } else if d == 8 {
        '8'
    } else {
        '9'
    }
}

/// The decimal text of a nonnegative integer, most significant digit first.
pub open spec fn dec_digits(n: nat) -> Seq<char>
    decreases n,
{
    if n < 10 {
        seq![digit_of(n as int)]
    } else {
        dec_digits(n / 10).push(digit_of((n % 10) as int))
    }
}

/// The decimal text of an integer, with a leading minus sign when negative.
pub open spec fn int_text(i: int) -> Seq<char> {
    if i < 0 {
        seq!['-'] + dec_digits((-i) as nat)
    } else {
        dec_digits(i as nat)
    }
}

pub open spec fn rev_seq(s: Seq<char>) -> Seq<char> {
    Seq::new(s.len(), |i: int| s[s.len() - 1 - i])
}

proof fn lemma_rev_push(s: Seq<char>, c: char)
    ensures
        rev_seq(s.push(c)) =~= seq![c] + rev_seq(s),
{
}

/// Relies on `String::push`: appends one character at the end of the string.
#[verifier::external_body]
pub(crate) fn push_char(s: &mut String, c: char)
    ensures
        final(s)@ == old(s)@.push(c),
{
    s.push(c)
}

fn digit_to_char(d: u64) -> (c: char)
    requires
        d < 10,
    ensures
        c == digit_of(d as int),
{
    if d == 0 {
        '0'
    } else if d == 1 {
        '1'
    } else if d == 2 {
        '2'
    } else if d == 3 {
        '3'
    } else if d == 4 {
        '4'
    } else if d == 5 {
        '5'
    } else if d == 6 {
        '6'
    } else if d == 7 {
        '7'
    } else if d == 8 {
        '8'
    } else {
        '9'
    }
}

/// The decimal text of a machine integer.
pub fn i64_to_string(v: i64) -> (r: String)
    ensures
        r@ == int_text(v as int),
{
    let neg = v < 0;
    let mut m: u64 = if v >= 0 {
        v as u64
    } else {
        (-(v as i128)) as u64
    };
    assert(m as int == if v >= 0 {
        v as int
    } else {
        -(v as int)
    });
    let ghost m0 = m as nat;
    let mut tmp: Vec<char> = Vec::new();
    if m == 0 {
        tmp.push('0');
    }
    while m > 0
        invariant
            if m > 0 {
                dec_digits(m0) =~= dec_digits(m as nat) + rev_seq(tmp@)
            } else {
                tmp@.len() > 0 && dec_digits(m0) =~= rev_seq(tmp@)
            },
        decreases m,
    {
        let d = m % 10;
        let ghost tprev = tmp@;
        tmp.push(digit_to_char(d));
        proof {
            lemma_rev_push(tprev, digit_of(d as int));
        }
        let prev = m;
        m = m / 10;
        proof {
            if prev >= 10 {
                assert(dec_digits(prev as nat) == dec_digits((prev / 10) as nat).push(
                    digit_of((prev % 10) as int),
                ));
                assert(dec_digits((prev / 10) as nat).push(digit_of((prev % 10) as int))
                    + rev_seq(tprev) =~= dec_digits((prev / 10) as nat) + (seq![
                    digit_of((prev % 10) as int),
                ] + rev_seq(tprev)));
            } else {
                assert(prev / 10 == 0);
                assert(dec_digits(prev as nat) == seq![digit_of(prev as int)]);
            }
        }
    }
    let mut r = String::new();
    if neg {
        push_char(&mut r, '-');
    }
    let ghost base = r@;
    let n = tmp.len();
    let mut k: usize = 0;
    while k < n
        invariant
            n == tmp@.len(),
            0 <= k <= n,
            r@ =~= base + rev_seq(tmp@).take(k as int),
        decreases n - k,
    {
        push_char(&mut r, tmp[n - 1 - k]);
        proof {
            assert(rev_seq(tmp@).take(k + 1) =~= rev_seq(tmp@).take(k as int).push(
                rev_seq(tmp@)[k as int],
            ));
        }
        k += 1;
    }
    proof {
        assert(rev_seq(tmp@).take(n as int) =~= rev_seq(tmp@));
        assert(r@ =~= base + dec_digits(m0));
        if v < 0 {
            assert(base =~= seq!['-']);
            assert(r@ =~= int_text(v as int));
        } else {
            assert(base =~= Seq::<char>::empty());
            assert(r@ =~= int_text(v as int));
        }
    }
    r
}

} // verus!
