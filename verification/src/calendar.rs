//! Reading the year and the month of a calendar request.

use vstd::prelude::*;
use vstd::string::*;
use crate::decimal::{Decimal, decimal_digits, decimal_string, parsed_int, signed_digits, signed_string};

verus! {

/// The lower-case form of `text`, as the standard library maps it.
pub uninterp spec fn lowercase_of(text: Seq<char>) -> Seq<char>;

/// Calls `str::to_lowercase`. Trusted: that the result depends on the text
/// alone, which is what `lowercase_of` names.
#[verifier::external_body]
fn to_lowercase(text: &str) -> (lower: String)
    ensures
        lower@ == lowercase_of(text@),
{
    text.to_lowercase()
}

/// The name of the month at `index`, counted from zero.
pub open spec fn month_name_text(index: int) -> Seq<char> {
    if index == 0 {
        "January"@
    } else if index == 1 {
        "February"@
    } else if index == 2 {
        "March"@
    } else if index == 3 {
        "April"@
    } else if index == 4 {
        "May"@
    } else if index == 5 {
        "June"@
    } else if index == 6 {
        "July"@
    } else if index == 7 {
        "August"@
    } else if index == 8 {
        "September"@
    } else if index == 9 {
        "October"@
    } else if index == 10 {
        "November"@
    } else {
        "December"@
    }
}

/// The name of the month at `index`, counted from zero.
pub fn month_name(index: usize) -> (name: &'static str)
    requires
        index < 12,
    ensures
        name@ == month_name_text(index as int),
{
    if index == 0 {
        "January"
    } else if index == 1 {
        "February"
    } else if index == 2 {
        "March"
    } else if index == 3 {
        "April"
    } else if index == 4 {
        "May"
    } else if index == 5 {
        "June"
    } else if index == 6 {
        "July"
    } else if index == 7 {
        "August"
    } else if index == 8 {
        "September"
    } else if index == 9 {
        "October"
    } else if index == 10 {
        "November"
    } else {
        "December"
    }
}

/// `text` begins with `prefix`.
pub open spec fn is_prefix(prefix: Seq<char>, text: Seq<char>) -> bool {
    prefix.len() <= text.len() && text.take(prefix.len() as int) == prefix
}

/// Tells whether `text` begins with `prefix`.
pub fn starts_with(text: &str, prefix: &str) -> (found: bool)
    ensures
        found == is_prefix(prefix@, text@),
{
    let len = prefix.unicode_len();
    if len > text.unicode_len() {
        return false;
    }
    let mut i: usize = 0;
    while i < len
        invariant
            len == prefix@.len(),
            len <= text@.len(),
            i <= len,
            forall|k: int| 0 <= k < i ==> text@[k] == prefix@[k],
        decreases len - i,
    {
        if text.get_char(i) != prefix.get_char(i) {
            proof {
                assert(text@.take(len as int)[i as int] != prefix@[i as int]);
            }
            return false;
        }
        i = i + 1;
    }
    proof {
        assert(text@.take(len as int) =~= prefix@);
    }
    true
}

/// What is reported of text that writes no integer.
pub open spec fn invalid_integer_text(input: Seq<char>) -> Seq<char> {
    "Invalid integer \""@ + input + "\""@
}

/// Reads an integer of the type asked for, or reports the input.
pub fn parse_int<T: Decimal>(val: &str) -> (result: Result<T, String>)
    ensures
        match result {
            Ok(number) => parsed_int(val@, T::lowest(), T::highest()) == Some(number.value()),
            Err(error) => parsed_int(val@, T::lowest(), T::highest()) is None && error@
                == invalid_integer_text(val@),
        },
{
    match T::from_decimal(val) {
        Some(number) => Ok(number),
        None => Err(String::from_str("Invalid integer \"").concat(val).concat("\"")),
    }
}

/// What is reported of a year outside the calendar.
pub open spec fn year_range_text(year: int) -> Seq<char> {
    "year \""@ + signed_digits(year) + "\" not in the range 1 through 9999"@
}

/// Reads a year from 1 through 9999.
pub fn parse_year(year: &str) -> (result: Result<i32, String>)
    ensures
        match result {
            Ok(number) => 1 <= number <= 9999 && parsed_int(
                year@,
                i32::MIN as int,
                i32::MAX as int,
            ) == Some(number as int),
            Err(error) => match parsed_int(year@, i32::MIN as int, i32::MAX as int) {
                Some(number) => !(1 <= number <= 9999) && error@ == year_range_text(number),
                None => error@ == invalid_integer_text(year@),
            },
        },
{
    match parse_int::<i32>(year) {
        Ok(number) => {
            if number >= 1 && number <= 9999 {
                Ok(number)
            } else {
                Err(
                    String::from_str("year \"").concat(signed_string(number).as_str()).concat(
                        "\" not in the range 1 through 9999",
                    ),
                )
            }
        },
        Err(error) => Err(error),
    }
}

/// What is reported of a month number outside the year.
pub open spec fn month_range_text(month: int) -> Seq<char> {
    "month \""@ + decimal_digits(month as nat) + "\" not in the range 1 through 12"@
}

/// What is reported of text that names no single month.
pub open spec fn invalid_month_text(input: Seq<char>) -> Seq<char> {
    "Invalid month \""@ + input + "\""@
}

/// The lower-case `prefix` begins the lower-case name of the month at `index`.
pub open spec fn begins_month(prefix: Seq<char>, index: int) -> bool {
    is_prefix(prefix, lowercase_of(month_name_text(index)))
}

/// `month`, counted from one, is the only month whose name `prefix` begins.
pub open spec fn abbreviates(prefix: Seq<char>, month: int) -> bool {
    &&& 1 <= month <= 12
    &&& begins_month(prefix, month - 1)
    &&& forall|other: int| 0 <= other < 12 && other != month - 1 ==> !begins_month(prefix, other)
}

/// Reads a month: a number from 1 through 12, or, where the text writes no
/// number, the beginning of the name of exactly one month in any case.
pub fn parse_month(month: &str) -> (result: Result<u32, String>)
    ensures
        match parsed_int(month@, 0, u32::MAX as int) {
            Some(number) => match result {
                Ok(found) => 1 <= number <= 12 && found == number,
                Err(error) => !(1 <= number <= 12) && error@ == month_range_text(number),
            },
            None => match result {
                Ok(found) => abbreviates(lowercase_of(month@), found as int),
                Err(error) => error@ == invalid_month_text(month@) && forall|named: int|
                    !abbreviates(lowercase_of(month@), named),
            },
        },
{
    match parse_int::<u32>(month) {
        Ok(number) => {
            if number >= 1 && number <= 12 {
                Ok(number)
            } else {
                Err(
                    String::from_str("month \"").concat(
                        decimal_string(number as usize).as_str(),
                    ).concat("\" not in the range 1 through 12"),
                )
            }
        },
        Err(_) => {
            let lower = to_lowercase(month);
            let mut first: Option<u32> = None;
            let mut several = false;
            let ghost mut second: int = 0;
            let mut i: usize = 0;
            while i < 12
                invariant
                    i <= 12,
                    lower@ == lowercase_of(month@),
                    first is None ==> !several && forall|k: int|
                        0 <= k < i ==> !begins_month(lower@, k),
                    first is Some ==> 1 <= first.unwrap() <= i && begins_month(
                        lower@,
                        first.unwrap() - 1,
                    ),
                    first is Some && !several ==> forall|k: int|
                        0 <= k < i && k != first.unwrap() - 1 ==> !begins_month(lower@, k),
                    several ==> first is Some && 0 <= second < i && second != first.unwrap() - 1
                        && begins_month(lower@, second),
                decreases 12 - i,
            {
                let name = to_lowercase(month_name(i));
                if starts_with(name.as_str(), lower.as_str()) {
                    match first {
                        Some(_) => {
                            several = true;
                            proof {
                                second = i as int;
                            }
                        },
                        None => {
                            first = Some((i + 1) as u32);
                        },
                    }
                }
                i = i + 1;
            }
            match first {
                Some(found) if !several => Ok(found),
                _ => {
                    proof {
                        assert forall|named: int| !abbreviates(lower@, named) by {
                            if abbreviates(lower@, named) {
                                assert(begins_month(lower@, named - 1));
                            }
                        }
                    }
                    Err(String::from_str("Invalid month \"").concat(month).concat("\""))
                },
            }
        },
    }
}

} // verus!
