//! Numbers as text, and text as numbers.

use crate::text::repeated;
use vstd::prelude::*;
use vstd::string::*;

verus! {

// ---------------------------------------------------------------------------
// Writing
// ---------------------------------------------------------------------------
/// The decimal digit for `d`.
pub open spec fn digit(d: nat) -> char
    recommends
        d < 10,
{
    ((48 + d) as u8) as char
}

/// `n` in decimal, without leading zeros.
pub open spec fn decimal(n: nat) -> Seq<char>
    decreases n,
{
    if n < 10 {
        seq![digit(n)]
    } else {
        decimal(n / 10).push(digit(n % 10))
    }
}

/// `i` in decimal, with a sign if it is negative.
pub open spec fn signed_decimal(i: int) -> Seq<char> {
    if i < 0 {
        seq!['-'] + decimal((-i) as nat)
    } else {
        decimal(i as nat)
    }
}

/// `n` in decimal.
pub fn number_text(n: u128) -> (r: String)
    ensures
        r@ == decimal(n as nat),
    decreases n,
{
    if n < 10 {
        let mut r = String::new();
        r.push((48u8 + n as u8) as char);
        assert(r@ =~= seq![digit(n as nat)]);
        r
    } else {
        let mut r = number_text(n / 10);
        r.push((48u8 + (n % 10) as u8) as char);
        r
    }
}

/// `n` in decimal.
pub fn count_text(n: usize) -> (r: String)
    ensures
        r@ == decimal(n as nat),
{
    number_text(n as u128)
}

/// `n` in decimal, with a sign if it is negative.
pub fn signed_text(n: i64) -> (r: String)
    ensures
        r@ == signed_decimal(n as int),
{
    if n < 0 {
        let magnitude: i128 = -(n as i128);
        let digits = number_text(magnitude as u128);
        let mut r = String::new();
        r.push('-');
        r.append(digits.as_str());
        assert(r@ =~= seq!['-'] + digits@);
        r
    } else {
        number_text(n as u128)
    }
}

/// `s` with zeros put in front until it is at least `width` characters long.
pub open spec fn zero_padded(s: Seq<char>, width: int) -> Seq<char> {
    repeated('0', width - s.len()) + s
}

/// `n` in decimal, with at least two digits.
pub fn two_digits(n: u64) -> (r: String)
    ensures
        r@ == zero_padded(decimal(n as nat), 2),
{
    let digits = number_text(n as u128);
    if n < 10 {
        let mut r = String::new();
        r.push('0');
        r.append(digits.as_str());
        assert(r@ =~= zero_padded(digits@, 2));
        r
    } else {
        proof {
            assert(decimal(n as nat).len() >= 2) by {
                lemma_decimal_digits(n as nat / 10);
            }
            assert(zero_padded(digits@, 2) =~= digits@);
        }
        digits
    }
}

/// The hexadecimal digit for `d`, a small letter from ten on.
pub open spec fn hex_digit(d: int) -> char {
    if d < 10 {
        ((48 + d) as u8) as char
    } else {
        ((87 + d) as u8) as char
    }
}

/// The last `k` hexadecimal digits of `n`, the most significant first.
pub open spec fn hex_digits(n: nat, k: nat) -> Seq<char>
    decreases k,
{
    if k == 0 {
        Seq::empty()
    } else {
        hex_digits(n / 16, (k - 1) as nat).push(hex_digit((n % 16) as int))
    }
}

/// The last `k` hexadecimal digits of `n`, the most significant first.
pub fn hex_text(n: u64, k: u32) -> (r: String)
    ensures
        r@ == hex_digits(n as nat, k as nat),
    decreases k,
{
    if k == 0 {
        return String::new();
    }
    let mut r = hex_text(n / 16, k - 1);
    let d: u8 = (n % 16) as u8;
    if d < 10 {
        r.push((48u8 + d) as char);
    } else {
        r.push((87u8 + d) as char);
    }
    r
}

// ---------------------------------------------------------------------------
// Reading
// ---------------------------------------------------------------------------
/// Whether `c` is a decimal digit.
pub open spec fn is_digit(c: char) -> bool {
    '0' <= c <= '9'
}

/// The digits at the start of `s`, up to the first other character.
pub open spec fn leading_digits(s: Seq<char>) -> Seq<char>
    decreases s.len(),
{
    if s.len() > 0 && is_digit(s[0]) {
        seq![s[0]] + leading_digits(s.drop_first())
    } else {
        Seq::empty()
    }
}

/// The number that the digits of `s` write in decimal.
pub open spec fn decimal_value(s: Seq<char>) -> nat
    decreases s.len(),
{
    if s.len() == 0 {
        0
    } else {
        10 * decimal_value(s.drop_last()) + (s.last() as nat - 48) as nat
    }
}

/// The number written by the digits at the start of `s`, if there are any and
/// the number fits.
pub open spec fn leading_number(s: Seq<char>) -> Option<i32> {
    let digits = leading_digits(s);
    if digits.len() == 0 || decimal_value(digits) > i32::MAX {
        None
    } else {
        Some(decimal_value(digits) as i32)
    }
}

/// More digits never make a smaller number.
proof fn lemma_value_grows(s: Seq<char>, n: int)
    requires
        0 <= n <= s.len(),
    ensures
        decimal_value(s.take(n)) <= decimal_value(s),
    decreases s.len() - n,
{
    if n < s.len() {
        lemma_value_grows(s, n + 1);
        assert(s.take(n + 1).drop_last() =~= s.take(n));
    } else {
        assert(s.take(n) =~= s);
    }
}

/// The leading digits are a prefix of digits, and what follows is none.
pub proof fn lemma_leading_digits(s: Seq<char>)
    ensures
        leading_digits(s).len() <= s.len(),
        leading_digits(s) == s.take(leading_digits(s).len() as int),
        forall|i: int| 0 <= i < leading_digits(s).len() ==> is_digit(s[i]),
        leading_digits(s).len() < s.len() ==> !is_digit(s[leading_digits(s).len() as int]),
    decreases s.len(),
{
    if s.len() > 0 && is_digit(s[0]) {
        let rest = s.drop_first();
        lemma_leading_digits(rest);
        let n = leading_digits(rest).len() as int;
        assert(leading_digits(s) =~= s.take(n + 1));
        assert forall|i: int| 0 <= i < leading_digits(s).len() implies is_digit(s[i]) by {
            if i > 0 {
                assert(rest[i - 1] == s[i]);
            }
        }
        if n + 1 < s.len() {
            assert(rest[n] == s[n + 1]);
        }
    } else {
        assert(s.take(0) =~= Seq::<char>::empty());
    }
}

/// The number written by the digits of `s` from position `from` on.
pub fn number_at(s: &[char], from: usize) -> (r: Option<i32>)
    requires
        from <= s@.len(),
    ensures
        r == leading_number(s@.skip(from as int)),
{
    let ghost rest = s@.skip(from as int);
    let ghost digits = leading_digits(rest);
    proof {
        lemma_leading_digits(rest);
    }
    let mut value: u64 = 0;
    let mut i: usize = from;
    assert(rest.take(0) =~= Seq::<char>::empty());
    while i < s.len() && '0' <= s[i] && s[i] <= '9'
        invariant
            from <= i <= s@.len(),
            rest == s@.skip(from as int),
            digits == leading_digits(rest),
            digits.len() <= rest.len(),
            digits == rest.take(digits.len() as int),
            digits.len() < rest.len() ==> !is_digit(rest[digits.len() as int]),
            i - from <= digits.len(),
            value <= i32::MAX,
            value == decimal_value(rest.take(i - from)),
        decreases s@.len() - i,
    {
        let ghost n = i - from;
        assert(rest[n] == s@[i as int]);
        assert(n < digits.len());
        assert(rest.take(n + 1).drop_last() =~= rest.take(n));
        value = 10 * value + (s[i] as u64 - 48);
        i += 1;
        assert(value == decimal_value(rest.take(n + 1)));
        if value > i32::MAX as u64 {
            proof {
                assert(digits.take(n + 1) =~= rest.take(n + 1));
                lemma_value_grows(digits, n + 1);
            }
            return None;
        }
    }
    proof {
        let n = i - from;
        if n < rest.len() {
            assert(rest[n] == s@[i as int]);
        }
        assert(n == digits.len()) by {
            if n < digits.len() {
                lemma_leading_digits(rest);
                assert(is_digit(rest[n]));
            }
        }
    }
    if i == from {
        None
    } else {
        Some(value as i32)
    }
}

// ---------------------------------------------------------------------------
// What is written is read back
// ---------------------------------------------------------------------------
/// A number in decimal is a run of digits.
pub proof fn lemma_decimal_digits(n: nat)
    ensures
        decimal(n).len() >= 1,
        forall|i: int| 0 <= i < decimal(n).len() ==> is_digit(#[trigger] decimal(n)[i]),
        decimal_value(decimal(n)) == n,
    decreases n,
{
    if n < 10 {
        assert(decimal(n).drop_last() =~= Seq::<char>::empty());
        assert(decimal_value(Seq::<char>::empty()) == 0);
        assert(decimal(n).last() as nat == 48 + n);
    } else {
        lemma_decimal_digits(n / 10);
        assert(decimal(n).drop_last() =~= decimal(n / 10));
        assert(decimal(n).last() as nat == 48 + n % 10);
    }
}

/// A number in decimal, followed by something else than a digit, is read back
/// if it fits.
pub proof fn lemma_number_read_back(n: nat, rest: Seq<char>)
    requires
        rest.len() > 0 ==> !is_digit(rest[0]),
    ensures
        leading_number(decimal(n) + rest) == if n <= i32::MAX {
            Some(n as i32)
        } else {
            None
        },
{
    let s = decimal(n) + rest;
    lemma_decimal_digits(n);
    lemma_leading_digits(s);
    let k = leading_digits(s).len() as int;
    let d = decimal(n).len() as int;
    if k < d {
        assert(s[k] == decimal(n)[k]);
    }
    if k > d {
        assert(s[d] == rest[0]);
    }
    assert(s.take(d) =~= decimal(n));
}

/// How many numbers `k` hexadecimal digits can tell apart.
pub open spec fn hex_range(k: nat) -> nat
    decreases k,
{
    if k == 0 {
        1
    } else {
        16 * hex_range((k - 1) as nat)
    }
}

/// Different numbers have different digits, as long as there are enough digits
/// for them, and there are as many digits as were asked for.
pub proof fn lemma_hex_digits_differ(a: nat, b: nat, k: nat)
    ensures
        hex_digits(a, k).len() == k,
        hex_digits(b, k).len() == k,
        a < hex_range(k) && b < hex_range(k) && hex_digits(a, k) == hex_digits(b, k) ==> a == b,
    decreases k,
{
    if k > 0 {
        let j = (k - 1) as nat;
        lemma_hex_digits_differ(a / 16, b / 16, j);
        if hex_digits(a, k) == hex_digits(b, k) {
            let (x, y) = (hex_digits(a, k), hex_digits(b, k));
            assert(x.drop_last() =~= hex_digits(a / 16, j));
            assert(y.drop_last() =~= hex_digits(b / 16, j));
            assert(x.last() == hex_digit((a % 16) as int));
            assert(y.last() == hex_digit((b % 16) as int));
            assert(hex_digit((a % 16) as int) as int == if a % 16 < 10 {
                48 + a % 16
            } else {
                87 + a % 16
            });
            assert(hex_digit((b % 16) as int) as int == if b % 16 < 10 {
                48 + b % 16
            } else {
                87 + b % 16
            });
        }
    }
}

/// A number is written with digits alone, without a zero in front, so that it can
/// be read back; a sign stands before it if and only if it is negative.
pub proof fn law_numbers_are_written_in_decimal(n: nat, i: int, k: int)
    ensures
        decimal_value(decimal(n)) == n,
        decimal(n).len() >= 1,
        n > 0 ==> decimal(n)[0] != '0',
        0 <= k < decimal(n).len() ==> '0' <= decimal(n)[k] <= '9',
        i >= 0 ==> signed_decimal(i) == decimal(i as nat),
        i < 0 ==> signed_decimal(i) == seq!['-'] + decimal((-i) as nat),
    decreases n,
{
    lemma_decimal_digits(n);
    if 0 <= k < decimal(n).len() {
        assert(is_digit(decimal(n)[k]));
    }
    if n >= 10 {
        law_numbers_are_written_in_decimal(n / 10, i, k);
        lemma_decimal_digits(n / 10);
        assert(decimal(n)[0] == decimal(n / 10)[0]);
    } else {
        assert(decimal(n)[0] as int == 48 + n);
    }
}

/// The value of a run of digits is the number that it is the decimal form of.
pub proof fn law_digits_have_their_value(s: Seq<char>, d: char)
    requires
        '0' <= d <= '9',
    ensures
        decimal_value(Seq::empty()) == 0,
        decimal_value(s.push(d)) == 10 * decimal_value(s) + (d as int - '0' as int),
{
    assert(s.push(d).drop_last() =~= s);
}

/// A number that is padded keeps its value and has at least the asked width.
pub proof fn law_padding_with_zeros(n: nat, width: int)
    ensures
        zero_padded(decimal(n), width).len() >= width,
        zero_padded(decimal(n), width).len() >= decimal(n).len(),
        zero_padded(decimal(n), width).skip(
            zero_padded(decimal(n), width).len() - decimal(n).len(),
        ) == decimal(n),
        forall|k: int|
            0 <= k < zero_padded(decimal(n), width).len() - decimal(n).len() ==> #[trigger]
            zero_padded(decimal(n), width)[k] == '0',
{
    let s = zero_padded(decimal(n), width);
    assert(s.skip(s.len() - decimal(n).len()) =~= decimal(n));
}

/// A number is written in hexadecimal digit by digit, the last digit being what is
/// left when the number is divided by sixteen.
pub proof fn law_hexadecimal_digits(n: nat, k: nat)
    requires
        k > 0,
    ensures
        hex_digits(n, k).len() == k,
        hex_digits(n, k).drop_last() == hex_digits(n / 16, (k - 1) as nat),
        n % 16 < 10 ==> hex_digits(n, k).last() as int == '0' as int + n % 16,
        n % 16 >= 10 ==> hex_digits(n, k).last() as int == 'a' as int + n % 16 - 10,
{
    lemma_hex_digits_differ(n, n, k);
    let digits = hex_digits(n, k);
    assert(digits.drop_last() =~= hex_digits(n / 16, (k - 1) as nat));
    assert(digits.last() == hex_digit((n % 16) as int));
}

} // verus!
