//! Cutting the bytes of a file into lines of text.

use vstd::prelude::*;
use vstd::string::*;
use vstd::utf8::*;
use crate::fortune::{SourceFile, string_views};

verus! {

/// The line without one trailing carriage return.
pub open spec fn without_return(line: Seq<u8>) -> Seq<u8> {
    if line.len() > 0 && line.last() == 13u8 {
        line.drop_last()
    } else {
        line
    }
}

/// The lines of `bytes` when `current` holds the bytes of the line begun:
/// every line feed ends a line, which loses a carriage return before the
/// line feed; bytes behind the last line feed make a last line as they are.
pub open spec fn raw_lines(bytes: Seq<u8>, current: Seq<u8>) -> Seq<Seq<u8>>
    decreases bytes.len(),
{
    if bytes.len() == 0 {
        if current.len() > 0 {
            seq![current]
        } else {
            Seq::empty()
        }
    } else if bytes[0] == 10u8 {
        seq![without_return(current)] + raw_lines(bytes.skip(1), Seq::empty())
    } else {
        raw_lines(bytes.skip(1), current.push(bytes[0]))
    }
}

/// The text of the lines that are well-formed UTF-8, in order; the others
/// are dropped.
pub open spec fn decoded_lines(lines: Seq<Seq<u8>>) -> Seq<Seq<char>>
    decreases lines.len(),
{
    if lines.len() == 0 {
        Seq::empty()
    } else if valid_utf8(lines.last()) {
        decoded_lines(lines.drop_last()).push(decode_utf8(lines.last()))
    } else {
        decoded_lines(lines.drop_last())
    }
}

/// The lines of text that the bytes of a file hold.
pub open spec fn text_lines(bytes: Seq<u8>) -> Seq<Seq<char>> {
    decoded_lines(raw_lines(bytes, Seq::empty()))
}

/// Calls `String::from_utf8`. Trusted: it gives a string exactly when the
/// bytes are well-formed UTF-8, and the string is then what they encode.
#[verifier::external_body]
fn decode(bytes: Vec<u8>) -> (text: Option<String>)
    ensures
        text is Some <==> valid_utf8(bytes@),
        text is Some ==> text.unwrap()@ == decode_utf8(bytes@),
{
    String::from_utf8(bytes).ok()
}

/// Decodes `line` and puts it behind `lines`, unless it is no text.
fn keep_line(lines: &mut Vec<String>, line: Vec<u8>, Ghost(raw): Ghost<Seq<Seq<u8>>>)
    requires
        string_views(old(lines)@) == decoded_lines(raw),
    ensures
        string_views(final(lines)@) == decoded_lines(raw.push(line@)),
{
    let ghost held = string_views(lines@);
    proof {
        assert(raw.push(line@).drop_last() =~= raw);
    }
    match decode(line) {
        Some(text) => {
            lines.push(text);
            proof {
                assert(string_views(lines@) =~= held.push(text@));
            }
        },
        None => {},
    }
}

/// Cuts the bytes of a file into its lines of text.
///
/// A line ends at a line feed and loses a carriage return before it; bytes
/// behind the last line feed make a last line; a line that is no
/// well-formed UTF-8 is dropped.
pub fn read_lines(bytes: &Vec<u8>) -> (lines: Vec<String>)
    ensures
        string_views(lines@) == text_lines(bytes@),
{
    let mut lines: Vec<String> = Vec::new();
    let mut current: Vec<u8> = Vec::new();
    let ghost mut raw: Seq<Seq<u8>> = Seq::empty();
    let mut i: usize = 0;
    proof {
        assert(bytes@.skip(0) =~= bytes@);
        assert(raw + raw_lines(bytes@, Seq::empty()) =~= raw_lines(bytes@, Seq::empty()));
        assert(string_views(lines@) =~= decoded_lines(raw));
    }
    while i < bytes.len()
        invariant
            i <= bytes@.len(),
            raw_lines(bytes@, Seq::empty()) == raw + raw_lines(bytes@.skip(i as int), current@),
            string_views(lines@) == decoded_lines(raw),
        decreases bytes@.len() - i,
    {
        proof {
            assert(bytes@.skip(i as int).skip(1) =~= bytes@.skip(i + 1));
            assert(bytes@.skip(i as int)[0] == bytes@[i as int]);
        }
        if bytes[i] == 10 {
            let ghost whole = current@;
            if current.len() > 0 && current[current.len() - 1] == 13 {
                current.pop();
            }
            assert(current@ == without_return(whole));
            proof {
                assert(raw.push(current@) + raw_lines(bytes@.skip(i + 1), Seq::empty()) =~= raw + (
                seq![current@] + raw_lines(bytes@.skip(i + 1), Seq::empty())));
            }
            keep_line(&mut lines, current, Ghost(raw));
            proof {
                raw = raw.push(without_return(whole));
            }
            current = Vec::new();
        } else {
            current.push(bytes[i]);
        }
        i = i + 1;
    }
    proof {
        assert(bytes@.skip(i as int) =~= Seq::<u8>::empty());
    }
    if current.len() > 0 {
        proof {
            assert(raw + seq![current@] =~= raw.push(current@));
        }
        keep_line(&mut lines, current, Ghost(raw));
    } else {
        proof {
            assert(raw + Seq::<Seq<u8>>::empty() =~= raw);
        }
    }
    lines
}

/// Where the lines of a named input are read from.
#[derive(Debug, Clone, Copy, PartialEq, Eq, Structural)]
pub enum InputKind {
    /// The standard input, which the name `-` stands for.
    StandardInput,
    /// The file of that name.
    File,
}

/// Tells where the input named `filename` is read from: the standard input
/// for the name `-`, a file for every other name.
pub fn input_kind(filename: &str) -> (kind: InputKind)
    ensures
        (kind == InputKind::StandardInput) == (filename@ == seq!['-']),
        (kind == InputKind::File) == (filename@ != seq!['-']),
{
    if filename.unicode_len() == 1 && filename.get_char(0) == '-' {
        assert(filename@ =~= seq!['-']);
        InputKind::StandardInput
    } else {
        InputKind::File
    }
}

/// The file at `path` with the lines of text that its bytes hold.
pub fn source_file(path: String, bytes: &Vec<u8>) -> (file: SourceFile)
    ensures
        file.path == path,
        file@.lines == text_lines(bytes@),
{
    SourceFile { path, lines: read_lines(bytes) }
}

} // verus!
