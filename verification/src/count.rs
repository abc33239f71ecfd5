//! Counting the lines, words, bytes and characters of a text, and laying
//! out a count in a column.

use vstd::prelude::*;
use vstd::string::*;
use vstd::std_specs::iter::IteratorSpec;
use crate::decimal::{decimal_digits, decimal_string};

verus! {

/// The counts of one text.
#[derive(Debug, Clone, Copy, PartialEq, Eq, Structural)]
pub struct FileInfo {
    pub num_lines: usize,
    pub num_words: usize,
    pub num_bytes: usize,
    pub num_chars: usize,
}

/// The characters with the Unicode property `White_Space`.
pub open spec fn is_space(c: char) -> bool {
    ||| '\u{9}' <= c <= '\u{d}'
    ||| c == ' '
    ||| c == '\u{85}'
    ||| c == '\u{a0}'
    ||| c == '\u{1680}'
    ||| '\u{2000}' <= c <= '\u{200a}'
    ||| c == '\u{2028}'
    ||| c == '\u{2029}'
    ||| c == '\u{202f}'
    ||| c == '\u{205f}'
    ||| c == '\u{3000}'
}

/// How many line breaks the text holds.
pub open spec fn break_count(text: Seq<char>) -> nat
    decreases text.len(),
{
    if text.len() == 0 {
        0
    } else if text.last() == '\n' {
        break_count(text.drop_last()) + 1
    } else {
        break_count(text.drop_last())
    }
}

/// How many lines the text holds: one for each line break, and one more
/// for what follows the last of them.
pub open spec fn line_count(text: Seq<char>) -> nat {
    if text.len() > 0 && text.last() != '\n' {
        break_count(text) + 1
    } else {
        break_count(text)
    }
}

/// How many words the text holds: a word begins at each character that is
/// no white space and follows white space or nothing.
pub open spec fn word_count(text: Seq<char>) -> nat
    decreases text.len(),
{
    if text.len() == 0 {
        0
    } else if !is_space(text.last()) && (text.len() == 1 || is_space(text[text.len() - 2])) {
        word_count(text.drop_last()) + 1
    } else {
        word_count(text.drop_last())
    }
}

/// Tells whether `c` is white space.
pub fn is_space_char(c: char) -> (space: bool)
    ensures
        space == is_space(c),
{
    (c >= '\u{9}' && c <= '\u{d}') || c == ' ' || c == '\u{85}' || c == '\u{a0}' || c == '\u{1680}'
        || (c >= '\u{2000}' && c <= '\u{200a}') || c == '\u{2028}' || c == '\u{2029}' || c
        == '\u{202f}' || c == '\u{205f}' || c == '\u{3000}'
}

/// Counts the lines, words, bytes and characters of `text`.
pub fn count(text: &str) -> (info: FileInfo)
    ensures
        info.num_lines == line_count(text@),
        info.num_words == word_count(text@),
        info.num_bytes == text.spec_bytes().len(),
        info.num_chars == text@.len(),
{
    let len = text.unicode_len();
    let mut breaks: usize = 0;
    let mut words: usize = 0;
    let mut open_line = false;
    let mut in_word = false;
    let mut rest = text.chars();
    let ghost mut i: int = 0;
    proof {
        assert(text@.take(0) =~= Seq::<char>::empty());
        assert(text@.skip(0) =~= text@);
    }
    loop
        invariant
            len == text@.len(),
            0 <= i <= len,
            rest.remaining() == text@.skip(i),
            breaks == break_count(text@.take(i)),
            words == word_count(text@.take(i)),
            breaks + (if open_line { 1int } else { 0int }) <= i,
            words <= i,
            open_line == (i > 0 && text@[i - 1] != '\n'),
            in_word == (i > 0 && !is_space(text@[i - 1])),
        ensures
            i == len,
            breaks == break_count(text@.take(i)),
            words == word_count(text@.take(i)),
            breaks + (if open_line { 1int } else { 0int }) <= i,
            open_line == (i > 0 && text@[i - 1] != '\n'),
        decreases len - i,
    {
        let c = match rest.next() {
            Some(c) => c,
            None => {
                break ;
            },
        };
        proof {
            assert(text@.skip(i)[0] == text@[i]);
            assert(text@.skip(i).drop_first() =~= text@.skip(i + 1));
            assert(text@.take(i + 1).drop_last() =~= text@.take(i));
            assert(text@.take(i + 1).last() == c);
            if i > 0 {
                assert(text@.take(i + 1)[i - 1] == text@[i - 1]);
            }
        }
        if c == '\n' {
            breaks = breaks + 1;
            open_line = false;
        } else {
            open_line = true;
        }
        if is_space_char(c) {
            in_word = false;
        } else {
            if !in_word {
                words = words + 1;
            }
            in_word = true;
        }
        proof {
            i = i + 1;
        }
    }
    proof {
        assert(text@.take(len as int) =~= text@);
    }
    let lines = if open_line {
        breaks + 1
    } else {
        breaks
    };
    FileInfo { num_lines: lines, num_words: words, num_bytes: text.as_bytes().len(), num_chars: len }
}

/// That many spaces.
pub open spec fn spaces(count: nat) -> Seq<char> {
    Seq::new(count, |i: int| ' ')
}

/// The text, with spaces before it where it is shorter than `width`.
pub open spec fn right_aligned(text: Seq<char>, width: nat) -> Seq<char> {
    if text.len() >= width {
        text
    } else {
        spaces((width - text.len()) as nat) + text
    }
}

/// What a count shows as: nothing where it is not shown, and otherwise its
/// decimal digits, right-aligned in eight columns.
pub open spec fn field_text(value: nat, show: bool) -> Seq<char> {
    if show {
        right_aligned(decimal_digits(value), 8)
    } else {
        Seq::empty()
    }
}

/// Lays out a count in a column eight wide, or as nothing where it is not
/// shown.
pub fn format_field(value: usize, show: bool) -> (text: String)
    ensures
        text@ == field_text(value as nat, show),
{
    if !show {
        return String::new();
    }
    let digits = decimal_string(value);
    let len = digits.as_str().unicode_len();
    let mut text = String::new();
    let mut padded: usize = len;
    while padded < 8
        invariant
            len == digits@.len(),
            len <= padded,
            padded <= 8 || padded == len,
            text@ == spaces((padded - len) as nat),
        decreases 8 - padded,
    {
        proof {
            reveal_strlit(" ");
        }
        text.append(" ");
        padded = padded + 1;
        proof {
            assert(text@ =~= spaces((padded - len) as nat));
        }
    }
    text.append(digits.as_str());
    proof {
        if len >= 8 {
            assert(text@ =~= digits@);
        }
    }
    text
}

} // verus!
