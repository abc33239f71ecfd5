//! Integers in decimal notation: reading them from text within bounds, and
//! writing them.

use vstd::prelude::*;
use vstd::string::*;

verus! {

/// `c` is a decimal digit.
pub open spec fn is_digit(c: char) -> bool {
    '0' <= c <= '9'
}

/// The number that a decimal digit stands for.
pub open spec fn digit_value(c: char) -> nat {
    (c as nat - '0' as nat) as nat
}

/// Every character is a decimal digit.
pub open spec fn all_digits(digits: Seq<char>) -> bool {
    forall|i: int| 0 <= i < digits.len() ==> is_digit(#[trigger] digits[i])
}

/// The number that a sequence of decimal digits writes.
pub open spec fn decimal_value(digits: Seq<char>) -> nat
    decreases digits.len(),
{
    if digits.len() == 0 {
        0
    } else {
        decimal_value(digits.drop_last()) * 10 + digit_value(digits.last())
    }
}

/// The text without one leading plus sign.
pub open spec fn unsigned_part(text: Seq<char>) -> Seq<char> {
    if text.len() > 0 && text[0] == '+' {
        text.skip(1)
    } else {
        text
    }
}

/// The number that `digits` write, where they are one or more decimal
/// digits and the number is at most `limit`; nothing otherwise.
pub open spec fn magnitude_within(digits: Seq<char>, limit: nat) -> Option<nat> {
    if digits.len() > 0 && all_digits(digits) && decimal_value(digits) <= limit {
        Some(decimal_value(digits))
    } else {
        None
    }
}

/// The integer between `lowest` and `highest` that `text` writes: a sign,
/// which may be a minus only where negative numbers are allowed and may be
/// left out, and then one or more decimal digits; nothing otherwise.
pub open spec fn parsed_int(text: Seq<char>, lowest: int, highest: int) -> Option<int> {
    if text.len() > 0 && text[0] == '-' && lowest < 0 {
        match magnitude_within(text.skip(1), (-lowest) as nat) {
            Some(size) => Some(-(size as int)),
            None => None,
        }
    } else {
        match magnitude_within(unsigned_part(text), highest as nat) {
            Some(size) => Some(size as int),
            None => None,
        }
    }
}

proof fn lemma_decimal_value_grows(digits: Seq<char>, k: int)
    requires
        0 <= k <= digits.len(),
    ensures
        decimal_value(digits.take(k)) <= decimal_value(digits),
    decreases digits.len() - k,
{
    if k < digits.len() {
        assert(digits.take(k + 1).drop_last() =~= digits.take(k));
        lemma_decimal_value_grows(digits, k + 1);
    } else {
        assert(digits.take(k) =~= digits);
    }
}

/// Reads the digits of `val` from `start` on as a number of at most `limit`.
pub(crate) fn parse_magnitude(val: &str, start: usize, limit: u64) -> (result: Option<u64>)
    requires
        start <= val@.len(),
    ensures
        magnitude_within(val@.skip(start as int), limit as nat) == match result {
            Some(size) => Some(size as nat),
            None => None,
        },
{
    let len = val.unicode_len();
    if start == len {
        return None;
    }
    let ghost digits = val@.skip(start as int);
    let mut value: u64 = 0;
    let mut i: usize = start;
    proof {
        assert(digits.take(0) =~= Seq::<char>::empty());
    }
    while i < len
        invariant
            len == val@.len(),
            start <= i <= len,
            digits == val@.skip(start as int),
            all_digits(digits.take(i - start)),
            value == decimal_value(digits.take(i - start)),
        decreases len - i,
    {
        let c = val.get_char(i);
        let ghost k = i - start;
        proof {
            assert(digits[k] == c);
            assert(digits.take(k + 1).drop_last() =~= digits.take(k));
            assert(digits.take(k + 1).last() == c);
            lemma_decimal_value_grows(digits, k + 1);
        }
        if !(c >= '0' && c <= '9') {
            return None;
        }
        let digit: u64 = (c as u64) - ('0' as u64);
        let scaled = match value.checked_mul(10) {
            Some(scaled) => scaled,
            None => {
                return None;
            },
        };
        value = match scaled.checked_add(digit) {
            Some(sum) => sum,
            None => {
                return None;
            },
        };
        proof {
            assert forall|j: int| 0 <= j < k + 1 implies is_digit(
                #[trigger] digits.take(k + 1)[j],
            ) by {
                if j < k {
                    assert(digits.take(k)[j] == digits[j]);
                }
            }
        }
        i = i + 1;
    }
    proof {
        assert(digits.take(len - start) =~= digits);
    }
    if value <= limit {
        Some(value)
    } else {
        None
    }
}

/// Reads `val` as an integer between `lowest` and `highest`.
pub(crate) fn parse_bounded(val: &str, lowest: i128, highest: i128) -> (result: Option<i128>)
    requires
        -0xffff_ffff_ffff_ffff <= lowest <= 0 <= highest <= 0xffff_ffff_ffff_ffff,
    ensures
        parsed_int(val@, lowest as int, highest as int) == match result {
            Some(value) => Some(value as int),
            None => None,
        },
{
    let len = val.unicode_len();
    if len > 0 && val.get_char(0) == '-' && lowest < 0 {
        match parse_magnitude(val, 1, (-lowest) as u64) {
            Some(size) => Some(-(size as i128)),
            None => None,
        }
    } else {
        let start: usize = if len > 0 && val.get_char(0) == '+' {
            1
        } else {
            0
        };
        proof {
            assert(val@.skip(0) =~= val@);
        }
        match parse_magnitude(val, start, highest as u64) {
            Some(size) => Some(size as i128),
            None => None,
        }
    }
}

/// The character that writes a digit below ten.
pub open spec fn digit_char(digit: nat) -> char {
    if digit == 0 {
        '0'
    } else if digit == 1 {
        '1'
    } else if digit == 2 {
        '2'
    } else if digit == 3 {
        '3'
    } else if digit == 4 {
        '4'
    } else if digit == 5 {
        '5'
    } else if digit == 6 {
        '6'
    } else if digit == 7 {
        '7'
    } else if digit == 8 {
        '8'
    } else {
        '9'
    }
}

/// The decimal digits of `value`, without leading zeros.
pub open spec fn decimal_digits(value: nat) -> Seq<char>
    decreases value,
{
    if value < 10 {
        seq![digit_char(value)]
    } else {
        decimal_digits(value / 10).push(digit_char(value % 10))
    }
}

fn digit_text(digit: usize) -> (text: &'static str)
    requires
        digit < 10,
    ensures
        text@ == seq![digit_char(digit as nat)],
{
    proof {
        reveal_strlit("0");
        reveal_strlit("1");
        reveal_strlit("2");
        reveal_strlit("3");
        reveal_strlit("4");
        reveal_strlit("5");
        reveal_strlit("6");
        reveal_strlit("7");
        reveal_strlit("8");
        reveal_strlit("9");
    }
    let text = if digit == 0 {
        "0"
    } else if digit == 1 {
        "1"
    } else if digit == 2 {
        "2"
    } else if digit == 3 {
        "3"
    } else if digit == 4 {
        "4"
    } else if digit == 5 {
        "5"
    } else if digit == 6 {
        "6"
    } else if digit == 7 {
        "7"
    } else if digit == 8 {
        "8"
    } else {
        "9"
    };
    proof {
        assert(text@ =~= seq![digit_char(digit as nat)]);
    }
    text
}

/// Writes `value` in decimal digits.
pub fn decimal_string(value: usize) -> (text: String)
    ensures
        text@ == decimal_digits(value as nat),
    decreases value,
{
    if value < 10 {
        String::from_str(digit_text(value))
    } else {
        let text = decimal_string(value / 10).concat(digit_text(value % 10));
        proof {
            assert(text@ =~= decimal_digits(value as nat));
        }
        text
    }
}

/// The decimal notation of `value`, with a minus sign where it is negative.
pub open spec fn signed_digits(value: int) -> Seq<char> {
    if value < 0 {
        seq!['-'] + decimal_digits((-value) as nat)
    } else {
        decimal_digits(value as nat)
    }
}

/// Writes `value` in decimal digits, with its sign where it is negative.
pub fn signed_string(value: i32) -> (text: String)
    ensures
        text@ == signed_digits(value as int),
{
    if value < 0 {
        proof {
            reveal_strlit("-");
            assert("-"@ =~= seq!['-']);
        }
        let size: u32 = if value == i32::MIN {
            2147483648
        } else {
            (-value) as u32
        };
        let digits = decimal_string(size as usize);
        String::from_str("-").concat(digits.as_str())
    } else {
        decimal_string(value as usize)
    }
}

/// An integer type that can be read from decimal notation.
pub trait Decimal: Sized {
    /// The least value of the type.
    spec fn lowest() -> int;

    /// The greatest value of the type.
    spec fn highest() -> int;

    /// The value as a mathematical integer.
    spec fn value(self) -> int;

    /// Reads `val` as a value of the type, if it writes one.
    fn from_decimal(val: &str) -> (result: Option<Self>)
        ensures
            parsed_int(val@, Self::lowest(), Self::highest()) == match result {
                Some(number) => Some(number.value()),
                None => None,
            },
    ;
}

impl Decimal for i32 {
    open spec fn lowest() -> int {
        i32::MIN as int
    }

    open spec fn highest() -> int {
        i32::MAX as int
    }

    open spec fn value(self) -> int {
        self as int
    }

    fn from_decimal(val: &str) -> (result: Option<i32>) {
        match parse_bounded(val, -2147483648, 2147483647) {
            Some(number) => Some(number as i32),
            None => None,
        }
    }
}

impl Decimal for i64 {
    open spec fn lowest() -> int {
        i64::MIN as int
    }

    open spec fn highest() -> int {
        i64::MAX as int
    }

    open spec fn value(self) -> int {
        self as int
    }

    fn from_decimal(val: &str) -> (result: Option<i64>) {
        match parse_bounded(val, -9223372036854775808, 9223372036854775807) {
            Some(number) => Some(number as i64),
            None => None,
        }
    }
}

impl Decimal for u32 {
    open spec fn lowest() -> int {
        0
    }

    open spec fn highest() -> int {
        u32::MAX as int
    }

    open spec fn value(self) -> int {
        self as int
    }

    fn from_decimal(val: &str) -> (result: Option<u32>) {
        match parse_bounded(val, 0, 4294967295) {
            Some(number) => Some(number as u32),
            None => None,
        }
    }
}

impl Decimal for u64 {
    open spec fn lowest() -> int {
        0
    }

    open spec fn highest() -> int {
        u64::MAX as int
    }

    open spec fn value(self) -> int {
        self as int
    }

    fn from_decimal(val: &str) -> (result: Option<u64>) {
        match parse_bounded(val, 0, 0xffff_ffff_ffff_ffff) {
            Some(number) => Some(number as u64),
            None => None,
        }
    }
}

impl Decimal for usize {
    open spec fn lowest() -> int {
        0
    }

    open spec fn highest() -> int {
        usize::MAX as int
    }

    open spec fn value(self) -> int {
        self as int
    }

    fn from_decimal(val: &str) -> (result: Option<usize>) {
        match parse_bounded(val, 0, usize::MAX as i128) {
            Some(number) => Some(number as usize),
            None => None,
        }
    }
}

} // verus!
