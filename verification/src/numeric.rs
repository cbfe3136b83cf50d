//! Decimal numerals: the spec-level value of a run of digits, the canonical
//! decimal rendering of an integer, executable decoders for the numeric
//! wire fields, and the lemmas that make the two directions inverse.

use crate::record::has_no_tab;
use vstd::arithmetic::div_mod::{lemma_div_decreases, lemma_fundamental_div_mod};
use vstd::prelude::*;
use vstd::string::StrSliceExecFns;
use vstd::string::StringExecFns;

verus! {

/// True when `c` is a decimal digit.
pub open spec fn is_digit(c: char) -> bool {
    48 <= c as u32 <= 57
}

/// The value of a digit character; meaningful only when `is_digit(c)`.
pub open spec fn digit_val(c: char) -> nat {
    if is_digit(c) {
        (c as u32 - 48) as nat
    } else {
        0
    }
}

/// True when every character of `s` is a decimal digit.
pub open spec fn all_digits(s: Seq<char>) -> bool {
    forall|i: int| 0 <= i < s.len() ==> is_digit(#[trigger] s[i])
}

/// The value of `s` read as a base-10 numeral, most significant digit first.
pub open spec fn digits_val(s: Seq<char>) -> nat
    decreases s.len(),
{
    if s.len() == 0 {
        0
    } else {
        digits_val(s.drop_last()) * 10 + digit_val(s.last())
    }
}

/// The digit character for `d`; meaningful only when `d < 10`.
pub open spec fn digit_char(d: nat) -> char {
    if d == 0 {
        '0'
    } else if d == 1 {
        '1'
    } else if d == 2 {
        '2'
    } else if d == 3 {
        '3'
    } else if d == 4 {
        '4'
    } else if d == 5 {
        '5'
    } else if d == 6 {
        '6'
    } else if d == 7 {
        '7'
    } else if d == 8 {
        '8'
    } else {
        '9'
    }
}

/// The canonical decimal numeral of `n`: no sign, no leading zero except
/// for the single digit of zero itself.
pub open spec fn dec_rep(n: nat) -> Seq<char>
    decreases n,
    via dec_rep_decreases
{
    if n < 10 {
        seq![digit_char(n)]
    } else {
        dec_rep(n / 10) + seq![digit_char(n % 10)]
    }
}

#[via_fn]
proof fn dec_rep_decreases(n: nat) {
    if n >= 10 {
        lemma_div_decreases(n as int, 10);
    }
}

/// What the unsigned 32-bit wire fields decode to: an optional `+` sign,
/// then at least one digit, and a value that fits in 32 bits.
pub open spec fn parse_u32_spec(s: Seq<char>) -> Option<u32> {
    let body = if s.len() > 0 && s[0] == '+' {
        s.skip(1)
    } else {
        s
    };
    if body.len() > 0 && all_digits(body) && digits_val(body) <= u32::MAX {
        Some(digits_val(body) as u32)
    } else {
        None
    }
}

/// What the timestamp field decodes to: an optional `+` or `-` sign, then at
/// least one digit, and a value that fits in a signed 64-bit integer.
pub open spec fn parse_i64_spec(s: Seq<char>) -> Option<i64> {
    let neg = s.len() > 0 && s[0] == '-';
    let body = if s.len() > 0 && (s[0] == '-' || s[0] == '+') {
        s.skip(1)
    } else {
        s
    };
    if body.len() > 0 && all_digits(body) {
        let v: int = if neg {
            -(digits_val(body) as int)
        } else {
            digits_val(body) as int
        };
        if i64::MIN <= v <= i64::MAX {
            Some(v as i64)
        } else {
            None
        }
    } else {
        None
    }
}

/// The decimal rendering of a signed 64-bit integer: a `-` sign for negative
/// values, then the canonical numeral of the magnitude.
pub open spec fn i64_dec(n: i64) -> Seq<char> {
    if n >= 0 {
        dec_rep(n as nat)
    } else {
        seq!['-'] + dec_rep((-(n as int)) as nat)
    }
}

/// Appending one digit multiplies the numeral's value by ten and adds it.
proof fn lemma_digits_val_push(s: Seq<char>, c: char)
    ensures
        digits_val(s.push(c)) == digits_val(s) * 10 + digit_val(c),
{
    assert(s.push(c).drop_last() =~= s);
    assert(s.push(c).last() == c);
}

/// A numeral's value only grows as more digits are appended.
proof fn lemma_digits_val_prefix_le(s: Seq<char>, i: int)
    requires
        0 <= i <= s.len(),
    ensures
        digits_val(s.take(i)) <= digits_val(s),
    decreases s.len() - i,
{
    if i < s.len() {
        lemma_digits_val_push(s.take(i), s[i]);
        assert(s.take(i).push(s[i]) =~= s.take(i + 1));
        lemma_digits_val_prefix_le(s, i + 1);
    } else {
        assert(s.take(i) =~= s);
    }
}

/// The canonical numeral consists of digits only.
pub proof fn lemma_dec_rep_digits(n: nat)
    ensures
        dec_rep(n).len() >= 1,
        all_digits(dec_rep(n)),
    decreases n,
{
    if n >= 10 {
        lemma_div_decreases(n as int, 10);
        lemma_dec_rep_digits(n / 10);
        assert forall|i: int| 0 <= i < dec_rep(n).len() implies is_digit(#[trigger] dec_rep(n)[i]) by {
            if i < dec_rep(n / 10).len() {
                assert(dec_rep(n)[i] == dec_rep(n / 10)[i]);
            } else {
                assert(dec_rep(n)[i] == digit_char(n % 10));
            }
        }
    }
}

/// The digit character of a digit value reads back as that value.
proof fn lemma_digit_char_val(d: nat)
    requires
        d < 10,
    ensures
        is_digit(digit_char(d)),
        digit_val(digit_char(d)) == d,
{
}

/// Reading the canonical numeral back gives the value it was made from.
pub proof fn lemma_dec_rep_val(n: nat)
    ensures
        digits_val(dec_rep(n)) == n,
    decreases n,
{
    if n < 10 {
        lemma_digit_char_val(n);
        assert(dec_rep(n) =~= seq![digit_char(n)]);
        assert(digits_val(Seq::<char>::empty()) == 0);
        assert(seq![digit_char(n)].drop_last() =~= Seq::<char>::empty());
        assert(seq![digit_char(n)].last() == digit_char(n));
        assert(digits_val(seq![digit_char(n)]) == n);
    } else {
        lemma_div_decreases(n as int, 10);
        lemma_dec_rep_val(n / 10);
        lemma_digit_char_val((n % 10) as nat);
        assert(dec_rep(n) =~= dec_rep(n / 10).push(digit_char((n % 10) as nat)));
        lemma_digits_val_push(dec_rep(n / 10), digit_char((n % 10) as nat));
        lemma_fundamental_div_mod(n as int, 10);
    }
}

/// Digits are neither tabs nor sign characters.
pub proof fn lemma_digits_not_special(s: Seq<char>)
    requires
        all_digits(s),
    ensures
        has_no_tab(s),
        s.len() > 0 ==> s[0] != '+' && s[0] != '-',
{
    assert forall|i: int| 0 <= i < s.len() implies s[i] != '\t' by {
        assert(is_digit(s[i]));
    }
    if s.len() > 0 {
        assert(is_digit(s[0]));
    }
}

/// The canonical numeral of an unsigned 32-bit value decodes back to it.
pub proof fn lemma_u32_dec_round_trip(v: u32)
    ensures
        parse_u32_spec(dec_rep(v as nat)) == Some(v),
{
    lemma_dec_rep_digits(v as nat);
    lemma_dec_rep_val(v as nat);
    lemma_digits_not_special(dec_rep(v as nat));
}

/// The decimal rendering of a signed 64-bit value decodes back to it.
pub proof fn lemma_i64_dec_round_trip(n: i64)
    ensures
        parse_i64_spec(i64_dec(n)) == Some(n),
{
    if n >= 0 {
        lemma_dec_rep_digits(n as nat);
        lemma_dec_rep_val(n as nat);
        lemma_digits_not_special(dec_rep(n as nat));
    } else {
        let mag = (-(n as int)) as nat;
        lemma_dec_rep_digits(mag);
        lemma_dec_rep_val(mag);
        lemma_digits_not_special(dec_rep(mag));
        let s = i64_dec(n);
        assert(s[0] == '-');
        assert(s.skip(1) =~= dec_rep(mag));
    }
}

/// The decimal rendering of a signed value holds no tab.
pub proof fn lemma_i64_dec_no_tab(n: i64)
    ensures
        has_no_tab(i64_dec(n)),
{
    if n >= 0 {
        lemma_dec_rep_digits(n as nat);
        lemma_digits_not_special(dec_rep(n as nat));
    } else {
        let mag = (-(n as int)) as nat;
        lemma_dec_rep_digits(mag);
        lemma_digits_not_special(dec_rep(mag));
        let s = i64_dec(n);
        assert forall|i: int| 0 <= i < s.len() implies s[i] != '\t' by {
            if i > 0 {
                assert(s[i] == dec_rep(mag)[i - 1]);
            }
        }
    }
}

/// Decode the value of an unsigned decimal field.
///
/// Returns `None` on an empty body, a non-digit, or a value over `u32::MAX`.
pub fn parse_u32_field(s: &str) -> (r: Option<u32>)
    ensures
        r == parse_u32_spec(s@),
{
    let n = s.unicode_len();
    let start: usize = if n > 0 && s.get_char(0) == '+' {
        1
    } else {
        0
    };
    let ghost body = if start == 1 {
        s@.skip(1)
    } else {
        s@
    };
    if start == n {
        return None;
    }
    let mut acc: u64 = 0;
    let mut i: usize = start;
    while i < n
        invariant
            start <= i <= n,
            n == s@.len(),
            start == 0 || start == 1,
            start == 1 ==> s@[0] == '+',
            start == 0 ==> s@.len() == 0 || s@[0] != '+',
            body == if start == 1 { s@.skip(1) } else { s@ },
            all_digits(body.take(i - start)),
            acc == digits_val(body.take(i - start)),
            acc <= u32::MAX,
        decreases n - i,
    {
        let c = s.get_char(i);
        let cv: u32 = c as u32;
        if cv < 48 || cv > 57 {
            proof {
                assert(body[i - start] == s@[i as int]);
                assert(!all_digits(body));
            }
            return None;
        }
        let d: u64 = (cv - 48) as u64;
        proof {
            assert(body[i - start] == s@[i as int]);
            lemma_digits_val_push(body.take(i - start), s@[i as int]);
            assert(body.take(i - start).push(s@[i as int]) =~= body.take(i + 1 - start));
        }
        acc = acc * 10 + d;
        i = i + 1;
        if acc > u32::MAX as u64 {
            proof {
                assert(body.take(i - start).len() == i - start);
                if all_digits(body) {
                    lemma_digits_val_prefix_le(body, i - start);
                }
            }
            return None;
        }
    }
    proof {
        assert(body.take(i - start) =~= body);
    }
    Some(acc as u32)
}

/// Decode the value of the signed 64-bit timestamp field.
///
/// Returns `None` on an empty body, a non-digit, or a value outside the
/// signed 64-bit range.
pub fn parse_i64_field(s: &str) -> (r: Option<i64>)
    ensures
        r == parse_i64_spec(s@),
{
    let n = s.unicode_len();
    let mut neg = false;
    let mut start: usize = 0;
    if n > 0 {
        let c0 = s.get_char(0);
        if c0 == '-' {
            neg = true;
            start = 1;
        } else if c0 == '+' {
            start = 1;
        }
    }
    let ghost body = if start == 1 {
        s@.skip(1)
    } else {
        s@
    };
    if start == n {
        return None;
    }
    // The accumulated magnitude is capped at 2^63 = 9223372036854775808: one
    // past i64::MAX, the exact magnitude of i64::MIN.
    let cap: u64 = 9223372036854775808;
    let mut acc: u64 = 0;
    let mut i: usize = start;
    while i < n
        invariant
            start <= i <= n,
            n == s@.len(),
            start == 0 || start == 1,
            start == 1 ==> (s@[0] == '-' || s@[0] == '+'),
            start == 0 ==> s@.len() == 0 || (s@[0] != '-' && s@[0] != '+'),
            neg == (s@.len() > 0 && s@[0] == '-'),
            cap == 9223372036854775808,
            body == if start == 1 { s@.skip(1) } else { s@ },
            all_digits(body.take(i - start)),
            acc == digits_val(body.take(i - start)),
            acc <= cap,
        decreases n - i,
    {
        let c = s.get_char(i);
        let cv: u32 = c as u32;
        if cv < 48 || cv > 57 {
            proof {
                assert(body[i - start] == s@[i as int]);
                assert(!all_digits(body));
            }
            return None;
        }
        let d: u64 = (cv - 48) as u64;
        proof {
            assert(body[i - start] == s@[i as int]);
            lemma_digits_val_push(body.take(i - start), s@[i as int]);
            assert(body.take(i - start).push(s@[i as int]) =~= body.take(i + 1 - start));
        }
        if acc > (cap - d) / 10 {
            proof {
                assert(acc * 10 + d > cap) by (nonlinear_arith)
                    requires
                        acc > (cap - d) / 10,
                        d < 10,
                        cap == 9223372036854775808;
                assert(body.take(i + 1 - start).len() == i + 1 - start);
                if all_digits(body) {
                    lemma_digits_val_prefix_le(body, i + 1 - start);
                }
            }
            return None;
        }
        proof {
            assert(acc * 10 + d <= cap) by (nonlinear_arith)
                requires
                    acc <= (cap - d) / 10,
                    d < 10,
                    cap == 9223372036854775808;
        }
        acc = acc * 10 + d;
        i = i + 1;
    }
    proof {
        assert(body.take(i - start) =~= body);
    }
    if neg {
        if acc == cap {
            Some(i64::MIN)
        } else {
            Some(-(acc as i64))
        }
    } else {
        if acc > i64::MAX as u64 {
            None
        } else {
            Some(acc as i64)
        }
    }
}

/// The one-character text of a digit.
fn digit_str(d: u64) -> (r: &'static str)
    requires
        d < 10,
    ensures
        r@ == seq![digit_char(d as nat)],
{
    proof {
        reveal_strlit("0");
        reveal_strlit("1");
        reveal_strlit("2");
        reveal_strlit("3");
        reveal_strlit("4");
        reveal_strlit("5");
        reveal_strlit("6");
        reveal_strlit("7");
        reveal_strlit("8");
        reveal_strlit("9");
    }
    let r: &'static str = match d {
        0 => "0",
        1 => "1",
        2 => "2",
        3 => "3",
        4 => "4",
        5 => "5",
        6 => "6",
        7 => "7",
        8 => "8",
        _ => "9",
    };
    proof {
        assert(r@ =~= seq![digit_char(d as nat)]);
    }
    r
}

/// Append the canonical decimal numeral of `n` to `out`.
pub fn push_dec_u64(n: u64, out: &mut String)
    ensures
        final(out)@ == old(out)@ + dec_rep(n as nat),
    decreases n,
{
    if n >= 10 {
        proof {
            lemma_div_decreases(n as int, 10);
        }
        push_dec_u64(n / 10, out);
    }
    let digit = digit_str(n % 10);
    out.append(digit);
    proof {
        if n >= 10 {
            assert(old(out)@ + dec_rep((n / 10) as nat) + seq![digit_char((n % 10) as nat)]
                =~= old(out)@ + dec_rep(n as nat));
        } else {
            assert(old(out)@ + seq![digit_char(n as nat)] =~= old(out)@ + dec_rep(n as nat));
        }
    }
}

} // verus!
