//! What a token denotes: decimal integers, and the token itself as a string.

use crate::text::{is_space, is_token};
use vstd::prelude::*;

verus! {

/// Whether `c` is one of the ten decimal digits `0` to `9`.
pub open spec fn is_digit(c: char) -> bool {
    0x30 <= c as u32 <= 0x39
}

/// The number that the digit `c` stands for.
pub open spec fn digit_value(c: char) -> nat {
    (c as u32 - 0x30) as nat
}

/// Whether `s` is a non-empty run of decimal digits.
pub open spec fn is_digits(s: Seq<char>) -> bool {
    &&& s.len() > 0
    &&& forall|i: int| 0 <= i < s.len() ==> is_digit(#[trigger] s[i])
}

/// The number that a run of decimal digits denotes, read in base ten.
pub open spec fn digits_value(s: Seq<char>) -> nat
    decreases s.len(),
{
    if s.len() == 0 {
        0
    } else {
        10 * digits_value(s.drop_last()) + digit_value(s.last())
    }
}

/// The integer that `token` denotes: decimal digits, which a `+` may
/// precede, or, where `signed`, a `-`. Anything else denotes no integer.
pub open spec fn decimal_value(token: Seq<char>, signed: bool) -> Option<int> {
    if token.len() > 0 && token[0] == '+' {
        if is_digits(token.skip(1)) {
            Some(digits_value(token.skip(1)) as int)
        } else {
            None
        }
    } else if signed && token.len() > 0 && token[0] == '-' {
        if is_digits(token.skip(1)) {
            Some(-(digits_value(token.skip(1)) as int))
        } else {
            None
        }
    } else if is_digits(token) {
        Some(digits_value(token) as int)
    } else {
        None
    }
}

/// The integer that `token` denotes, where it lies between `low` and `high`.
pub open spec fn decimal_in(token: Seq<char>, signed: bool, low: int, high: int) -> Option<int> {
    match decimal_value(token, signed) {
        Some(v) => if low <= v <= high {
            Some(v)
        } else {
            None
        },
        None => None,
    }
}

/// The digit that stands for `d`.
pub open spec fn digit_char(d: nat) -> char
    recommends
        d < 10,
{
    seq!['0', '1', '2', '3', '4', '5', '6', '7', '8', '9'][d as int]
}

/// The digits of `n` in base ten, without leading zeros.
pub open spec fn digits_of(n: nat) -> Seq<char>
    decreases n,
{
    if n < 10 {
        seq![digit_char(n)]
    } else {
        digits_of(n / 10).push(digit_char(n % 10))
    }
}

/// The usual way to write `v` in base ten: its digits, behind a `-` where
/// it is negative.
pub open spec fn decimal(v: int) -> Seq<char> {
    if v < 0 {
        seq!['-'] + digits_of((-v) as nat)
    } else {
        digits_of(v as nat)
    }
}

/// The digits of a number are digits, and denote that number.
pub proof fn lemma_digits_of(n: nat)
    ensures
        is_digits(digits_of(n)),
        digits_value(digits_of(n)) == n,
    decreases n,
{
    let s = digits_of(n);
    if n < 10 {
        assert(digits_value(s.drop_last()) == 0);
    } else {
        lemma_digits_of(n / 10);
        assert(s.drop_last() =~= digits_of(n / 10));
        assert(is_digit(s.last()));
    }
}

/// An integer written in the usual way is one token, and denotes that
/// integer.
pub proof fn lemma_decimal_denotes(v: int)
    ensures
        is_token(decimal(v)),
        decimal_value(decimal(v), true) == Some(v),
        v >= 0 ==> decimal_value(decimal(v), false) == Some(v),
{
    let s = decimal(v);
    if v < 0 {
        let digits = digits_of((-v) as nat);
        lemma_digits_of((-v) as nat);
        assert(s.skip(1) =~= digits);
        assert forall|i: int| 0 <= i < s.len() implies !is_space(#[trigger] s[i]) by {
            if i > 0 {
                assert(is_digit(digits[i - 1]));
            }
        }
    } else {
        lemma_digits_of(v as nat);
        assert forall|i: int| 0 <= i < s.len() implies !is_space(#[trigger] s[i]) by {
            assert(is_digit(s[i]));
        }
    }
}

/// A token that holds a character that is no digit denotes no integer,
/// unless that character is its sign, in the first place.
pub proof fn lemma_not_decimal(token: Seq<char>, signed: bool, i: int)
    requires
        0 <= i < token.len(),
        !is_digit(token[i]),
        i > 0 || !(token[0] == '+' || (signed && token[0] == '-')),
    ensures
        decimal_value(token, signed) is None,
{
    if i > 0 {
        assert(token.skip(1)[i - 1] == token[i]);
    }
}

/// More digits make the number no smaller.
pub proof fn lemma_digits_value_grows(s: Seq<char>, k: int)
    requires
        0 <= k <= s.len(),
    ensures
        digits_value(s.take(k)) <= digits_value(s),
    decreases s.len() - k,
{
    if k == s.len() {
        assert(s.take(k) =~= s);
    } else {
        assert(s.drop_last().take(k) =~= s.take(k));
        lemma_digits_value_grows(s.drop_last(), k);
    }
}

/// Reads sign and magnitude of the integer that `token` denotes. Gives
/// `None` where it denotes none, or one whose magnitude is over `u128::MAX`.
fn sign_and_magnitude(token: &str, signed: bool) -> (r: Option<(bool, u128)>)
    ensures
        match r {
            Some((negative, magnitude)) => decimal_value(token@, signed) == Some(
                if negative {
                    -(magnitude as int)
                } else {
                    magnitude as int
                },
            ),
            None => match decimal_value(token@, signed) {
                Some(v) => v > u128::MAX || v < -(u128::MAX as int),
                None => true,
            },
        },
{
    let mut negative = false;
    let mut at_start = true;
    let mut seen_digit = false;
    let mut magnitude: u128 = 0;
    let ghost s = token@;
    let ghost mut start: int = 0;
    for c in it: token.chars()
        invariant
            it.seq() == s,
            s == token@,
            at_start == (it.index() == 0),
            seen_digit == (start < it.index()),
            0 <= start <= 1,
            at_start ==> start == 0 && magnitude == 0,
            start == 1 ==> (s[0] == '+' && !negative) || (signed && s[0] == '-' && negative),
            start == 0 ==> !negative,
            forall|j: int| start <= j < it.index() ==> is_digit(#[trigger] s[j]),
            start <= it.index() ==> magnitude == digits_value(s.subrange(start, it.index() as int)),
    {
        let ghost k = it.index() as int;
        if at_start && (c == '+' || (signed && c == '-')) {
            negative = c == '-';
            proof {
                start = 1;
            }
        } else {
            let u: u32 = c as u32;
            if u < 0x30 || u > 0x39 {
                proof {
                    if start == 1 {
                        assert(s.skip(1)[k - 1] == c);
                    }
                }
                return None;
            }
            let d: u128 = (u - 0x30) as u128;
            let ghost digits = s.subrange(start, k + 1);
            proof {
                assert(digits.drop_last() =~= s.subrange(start, k));
            }
            let grown = match magnitude.checked_mul(10) {
                Some(tens) => tens.checked_add(d),
                None => None,
            };
            match grown {
                Some(m) => {
                    magnitude = m;
                },
                None => {
                    proof {
                        let all = s.skip(start);
                        assert(all.take(k + 1 - start) =~= digits);
                        lemma_digits_value_grows(all, k + 1 - start);
                        assert(start == 0 ==> all =~= s);
                    }
                    return None;
                },
            }
            seen_digit = true;
        }
        at_start = false;
    }
    proof {
        assert(start == 0 ==> s.skip(0) =~= s);
    }
    if !seen_digit {
        None
    } else {
        assert(is_digits(s.skip(start)));
        Some((negative, magnitude))
    }
}

/// Reads the integer that `token` denotes without a `-`, where it is at
/// most `high`.
fn unsigned_in(token: &str, high: u128) -> (r: Option<u128>)
    ensures
        match r {
            Some(v) => decimal_in(token@, false, 0, high as int) == Some(v as int),
            None => decimal_in(token@, false, 0, high as int) is None,
        },
{
    match sign_and_magnitude(token, false) {
        Some((_, magnitude)) => if magnitude <= high {
            Some(magnitude)
        } else {
            None
        },
        None => None,
    }
}

/// Reads the integer that `token` denotes, where it lies between `low` and
/// `high`.
fn signed_in(token: &str, low: i128, high: i128) -> (r: Option<i128>)
    ensures
        match r {
            Some(v) => decimal_in(token@, true, low as int, high as int) == Some(v as int),
            None => decimal_in(token@, true, low as int, high as int) is None,
        },
{
    let value: i128 = match sign_and_magnitude(token, true) {
        Some((negative, magnitude)) => {
            if magnitude <= 0x7fff_ffff_ffff_ffff_ffff_ffff_ffff_ffff {
                if negative {
                    -(magnitude as i128)
                } else {
                    magnitude as i128
                }
            } else if negative && magnitude == 0x8000_0000_0000_0000_0000_0000_0000_0000 {
                i128::MIN
            } else {
                return None;
            }
        },
        None => {
            return None;
        },
    };
    if low <= value && value <= high {
        Some(value)
    } else {
        None
    }
}

/// A type of values that tokens can denote.
pub trait FromToken: Sized + View {
    /// The value that `token` denotes, if it denotes one.
    spec fn value_of(token: Seq<char>) -> Option<Self::V>;

    /// Reads the value that `token` denotes. Gives `None` when, and only
    /// when, it denotes none.
    fn from_token(token: String) -> (value: Option<Self>)
        ensures
            match value {
                Some(v) => Self::value_of(token@) == Some(v@),
                None => Self::value_of(token@) is None,
            },
    ;
}

impl FromToken for String {
    /// Every token denotes itself.
    open spec fn value_of(token: Seq<char>) -> Option<Seq<char>> {
        Some(token)
    }

    fn from_token(token: String) -> (value: Option<String>) {
        Some(token)
    }
}

impl FromToken for u8 {
    open spec fn value_of(token: Seq<char>) -> Option<u8> {
        match decimal_in(token, false, 0, u8::MAX as int) {
            Some(v) => Some(v as u8),
            None => None,
        }
    }

    fn from_token(token: String) -> (value: Option<u8>) {
        match unsigned_in(token.as_str(), u8::MAX as u128) {
            Some(v) => Some(v as u8),
            None => None,
        }
    }
}

impl FromToken for u16 {
    open spec fn value_of(token: Seq<char>) -> Option<u16> {
        match decimal_in(token, false, 0, u16::MAX as int) {
            Some(v) => Some(v as u16),
            None => None,
        }
    }

    fn from_token(token: String) -> (value: Option<u16>) {
        match unsigned_in(token.as_str(), u16::MAX as u128) {
            Some(v) => Some(v as u16),
            None => None,
        }
    }
}

impl FromToken for u32 {
    open spec fn value_of(token: Seq<char>) -> Option<u32> {
        match decimal_in(token, false, 0, u32::MAX as int) {
            Some(v) => Some(v as u32),
            None => None,
        }
    }

    fn from_token(token: String) -> (value: Option<u32>) {
        match unsigned_in(token.as_str(), u32::MAX as u128) {
            Some(v) => Some(v as u32),
            None => None,
        }
    }
}

impl FromToken for u64 {
    open spec fn value_of(token: Seq<char>) -> Option<u64> {
        match decimal_in(token, false, 0, u64::MAX as int) {
            Some(v) => Some(v as u64),
            None => None,
        }
    }

    fn from_token(token: String) -> (value: Option<u64>) {
        match unsigned_in(token.as_str(), u64::MAX as u128) {
            Some(v) => Some(v as u64),
            None => None,
        }
    }
}

impl FromToken for u128 {
    open spec fn value_of(token: Seq<char>) -> Option<u128> {
        match decimal_in(token, false, 0, u128::MAX as int) {
            Some(v) => Some(v as u128),
            None => None,
        }
    }

    fn from_token(token: String) -> (value: Option<u128>) {
        match unsigned_in(token.as_str(), u128::MAX as u128) {
            Some(v) => Some(v as u128),
            None => None,
        }
    }
}

impl FromToken for usize {
    open spec fn value_of(token: Seq<char>) -> Option<usize> {
        match decimal_in(token, false, 0, usize::MAX as int) {
            Some(v) => Some(v as usize),
            None => None,
        }
    }

    fn from_token(token: String) -> (value: Option<usize>) {
        match unsigned_in(token.as_str(), usize::MAX as u128) {
            Some(v) => Some(v as usize),
            None => None,
        }
    }
}

impl FromToken for i8 {
    open spec fn value_of(token: Seq<char>) -> Option<i8> {
        match decimal_in(token, true, i8::MIN as int, i8::MAX as int) {
            Some(v) => Some(v as i8),
            None => None,
        }
    }

    fn from_token(token: String) -> (value: Option<i8>) {
        match signed_in(token.as_str(), i8::MIN as i128, i8::MAX as i128) {
            Some(v) => Some(v as i8),
            None => None,
        }
    }
}

impl FromToken for i16 {
    open spec fn value_of(token: Seq<char>) -> Option<i16> {
        match decimal_in(token, true, i16::MIN as int, i16::MAX as int) {
            Some(v) => Some(v as i16),
            None => None,
        }
    }

    fn from_token(token: String) -> (value: Option<i16>) {
        match signed_in(token.as_str(), i16::MIN as i128, i16::MAX as i128) {
            Some(v) => Some(v as i16),
            None => None,
        }
    }
}

impl FromToken for i32 {
    open spec fn value_of(token: Seq<char>) -> Option<i32> {
        match decimal_in(token, true, i32::MIN as int, i32::MAX as int) {
            Some(v) => Some(v as i32),
            None => None,
        }
    }

    fn from_token(token: String) -> (value: Option<i32>) {
        match signed_in(token.as_str(), i32::MIN as i128, i32::MAX as i128) {
            Some(v) => Some(v as i32),
            None => None,
        }
    }
}

impl FromToken for i64 {
    open spec fn value_of(token: Seq<char>) -> Option<i64> {
        match decimal_in(token, true, i64::MIN as int, i64::MAX as int) {
            Some(v) => Some(v as i64),
            None => None,
        }
    }

    fn from_token(token: String) -> (value: Option<i64>) {
        match signed_in(token.as_str(), i64::MIN as i128, i64::MAX as i128) {
            Some(v) => Some(v as i64),
            None => None,
        }
    }
}

impl FromToken for i128 {
    open spec fn value_of(token: Seq<char>) -> Option<i128> {
        match decimal_in(token, true, i128::MIN as int, i128::MAX as int) {
            Some(v) => Some(v as i128),
            None => None,
        }
    }

    fn from_token(token: String) -> (value: Option<i128>) {
        match signed_in(token.as_str(), i128::MIN as i128, i128::MAX as i128) {
            Some(v) => Some(v as i128),
            None => None,
        }
    }
}

impl FromToken for isize {
    open spec fn value_of(token: Seq<char>) -> Option<isize> {
        match decimal_in(token, true, isize::MIN as int, isize::MAX as int) {
            Some(v) => Some(v as isize),
            None => None,
        }
    }

    fn from_token(token: String) -> (value: Option<isize>) {
        match signed_in(token.as_str(), isize::MIN as i128, isize::MAX as i128) {
            Some(v) => Some(v as isize),
            None => None,
        }
    }
}

} // verus!
