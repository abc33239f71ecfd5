//! Records ("fortunes") and the parser that cuts a file's lines into them.

use vstd::prelude::*;
use vstd::string::*;

verus! {

/// One delimiter-bounded block of text, with the base name of its file.
#[derive(Debug, Clone)]
pub struct Fortune {
    pub source: String,
    pub text: String,
}

/// The mathematical value of a [`Fortune`].
pub struct FortuneView {
    pub source: Seq<char>,
    pub text: Seq<char>,
}

impl View for Fortune {
    type V = FortuneView;

    open spec fn view(&self) -> FortuneView {
        FortuneView { source: self.source@, text: self.text@ }
    }
}

/// The values of a sequence of fortunes, in order.
pub open spec fn fortune_views(corpus: Seq<Fortune>) -> Seq<FortuneView> {
    Seq::new(corpus.len(), |i: int| corpus[i]@)
}

/// The contents of a sequence of strings, in order.
pub open spec fn string_views(lines: Seq<String>) -> Seq<Seq<char>> {
    Seq::new(lines.len(), |i: int| lines[i]@)
}

/// A delimiter line is exactly the single character `%`.
pub open spec fn is_delimiter(line: Seq<char>) -> bool {
    line =~= seq!['%']
}

/// The lines joined with a line break between each two neighbours.
pub open spec fn join_lines(lines: Seq<Seq<char>>) -> Seq<char>
    decreases lines.len(),
{
    if lines.len() == 0 {
        Seq::empty()
    } else if lines.len() == 1 {
        lines[0]
    } else {
        join_lines(lines.drop_last()) + seq!['\n'] + lines.last()
    }
}

/// The record texts that `lines` yield when `pending` holds the lines already
/// buffered: every delimiter flushes a non-empty buffer as one record, and
/// what is buffered at the end is dropped.
pub open spec fn record_texts(lines: Seq<Seq<char>>, pending: Seq<Seq<char>>) -> Seq<Seq<char>>
    decreases lines.len(),
{
    if lines.len() == 0 {
        Seq::empty()
    } else if is_delimiter(lines[0]) {
        if pending.len() > 0 {
            seq![join_lines(pending)] + record_texts(lines.skip(1), Seq::empty())
        } else {
            record_texts(lines.skip(1), Seq::empty())
        }
    } else {
        record_texts(lines.skip(1), pending.push(lines[0]))
    }
}

/// Each text paired with the one `source`.
pub open spec fn with_source(source: Seq<char>, texts: Seq<Seq<char>>) -> Seq<FortuneView> {
    Seq::new(texts.len(), |i: int| FortuneView { source: source, text: texts[i] })
}

/// The records of one file: its record texts, each under the file's name.
pub open spec fn records_of(source: Seq<char>, lines: Seq<Seq<char>>) -> Seq<FortuneView> {
    with_source(source, record_texts(lines, Seq::empty()))
}

/// No line is a delimiter line.
pub open spec fn has_no_delimiter(lines: Seq<Seq<char>>) -> bool {
    forall|i: int| 0 <= i < lines.len() ==> !is_delimiter(#[trigger] lines[i])
}

/// Lines that no delimiter closes yield no record, whatever was buffered.
pub proof fn lemma_open_lines_yield_nothing(lines: Seq<Seq<char>>, pending: Seq<Seq<char>>)
    requires
        has_no_delimiter(lines),
    ensures
        record_texts(lines, pending) == Seq::<Seq<char>>::empty(),
    decreases lines.len(),
{
    if lines.len() > 0 {
        assert(!is_delimiter(lines[0]));
        assert forall|i: int| 0 <= i < lines.skip(1).len() implies !is_delimiter(
            #[trigger] lines.skip(1)[i],
        ) by {
            assert(lines.skip(1)[i] == lines[i + 1]);
        }
        lemma_open_lines_yield_nothing(lines.skip(1), pending.push(lines[0]));
    }
}

/// What follows the last delimiter line of a file is lost: lines without a
/// delimiter, put behind any lines, add no record and change none.
pub proof fn lemma_unterminated_tail_is_dropped(
    lines: Seq<Seq<char>>,
    tail: Seq<Seq<char>>,
    pending: Seq<Seq<char>>,
)
    requires
        has_no_delimiter(tail),
    ensures
        record_texts(lines + tail, pending) == record_texts(lines, pending),
    decreases lines.len(),
{
    if lines.len() == 0 {
        assert(lines + tail =~= tail);
        lemma_open_lines_yield_nothing(tail, pending);
    } else {
        let whole = lines + tail;
        assert(whole[0] == lines[0]);
        assert(whole.skip(1) =~= lines.skip(1) + tail);
        if is_delimiter(lines[0]) {
            lemma_unterminated_tail_is_dropped(lines.skip(1), tail, Seq::empty());
        } else {
            lemma_unterminated_tail_is_dropped(lines.skip(1), tail, pending.push(lines[0]));
        }
    }
}

/// A run of lines closed by a delimiter line comes out as one record, whole
/// and in its place: the buffered lines and the run, joined, and then the
/// records of what follows.
pub proof fn lemma_closed_block_is_one_record(
    block: Seq<Seq<char>>,
    rest: Seq<Seq<char>>,
    pending: Seq<Seq<char>>,
)
    requires
        has_no_delimiter(block),
        block.len() + pending.len() > 0,
    ensures
        record_texts(block + seq![seq!['%']] + rest, pending) == seq![join_lines(pending + block)]
            + record_texts(rest, Seq::empty()),
    decreases block.len(),
{
    let lines = block + seq![seq!['%']] + rest;
    if block.len() == 0 {
        assert(lines[0] == seq!['%']);
        assert(lines.skip(1) =~= rest);
        assert(pending + block =~= pending);
    } else {
        assert(lines[0] == block[0]);
        assert(!is_delimiter(block[0]));
        let shorter = block.skip(1);
        assert forall|i: int| 0 <= i < shorter.len() implies !is_delimiter(
            #[trigger] shorter[i],
        ) by {
            assert(shorter[i] == block[i + 1]);
        }
        assert(lines.skip(1) =~= shorter + seq![seq!['%']] + rest);
        assert(pending.push(block[0]) + shorter =~= pending + block);
        lemma_closed_block_is_one_record(shorter, rest, pending.push(block[0]));
    }
}

/// Tells whether `line` is a delimiter line.
pub fn is_delimiter_line(line: &str) -> (found: bool)
    ensures
        found == is_delimiter(line@),
{
    line.unicode_len() == 1 && line.get_char(0) == '%'
}

/// Joins `lines[from..to]` with line breaks.
pub fn join_range(lines: &Vec<String>, from: usize, to: usize) -> (text: String)
    requires
        from <= to <= lines@.len(),
    ensures
        text@ == join_lines(string_views(lines@).subrange(from as int, to as int)),
{
    let mut text = String::new();
    let mut i: usize = from;
    let ghost all = string_views(lines@);
    while i < to
        invariant
            from <= i <= to <= lines@.len(),
            all == string_views(lines@),
            text@ == join_lines(all.subrange(from as int, i as int)),
        decreases to - i,
    {
        proof {
            let next = all.subrange(from as int, i + 1);
            assert(next.drop_last() =~= all.subrange(from as int, i as int));
            assert(next.last() == lines@[i as int]@);
        }
        if i > from {
            text.append("\n");
            proof {
                reveal_strlit("\n");
                assert("\n"@ =~= seq!['\n']);
            }
        }
        text.append(lines[i].as_str());
        i = i + 1;
    }
    text
}

/// Cuts the lines of one file into records, each tagged with `source`.
///
/// A record is a run of lines closed by a delimiter line; a delimiter that
/// closes nothing yields nothing, and lines after the last delimiter are lost.
pub fn parse_records(source: &str, lines: &Vec<String>) -> (corpus: Vec<Fortune>)
    ensures
        fortune_views(corpus@) == records_of(source@, string_views(lines@)),
{
    let mut corpus: Vec<Fortune> = Vec::new();
    let mut start: usize = 0;
    let mut i: usize = 0;
    let ghost all = string_views(lines@);
    let ghost mut done: Seq<Seq<char>> = Seq::empty();
    proof {
        assert(all.skip(0) =~= all);
        assert(all.subrange(0, 0) =~= Seq::<Seq<char>>::empty());
        assert(done + record_texts(all, Seq::empty()) =~= record_texts(all, Seq::empty()));
    }
    while i < lines.len()
        invariant
            start <= i <= lines@.len(),
            all == string_views(lines@),
            record_texts(all, Seq::empty()) == done + record_texts(
                all.skip(i as int),
                all.subrange(start as int, i as int),
            ),
            fortune_views(corpus@) == with_source(source@, done),
        decreases lines@.len() - i,
    {
        proof {
            assert(all.skip(i as int).skip(1) =~= all.skip(i + 1));
            assert(all.skip(i as int)[0] == lines@[i as int]@);
            assert(all.subrange(start as int, i as int).push(all[i as int]) =~= all.subrange(
                start as int,
                i + 1,
            ));
            assert(all.subrange(i + 1, i + 1) =~= Seq::<Seq<char>>::empty());
        }
        if is_delimiter_line(lines[i].as_str()) {
            if start < i {
                let text = join_range(lines, start, i);
                let ghost before = done;
                proof {
                    done = done.push(text@);
                    assert(done + record_texts(all.skip(i + 1), Seq::empty()) =~= before + (
                    seq![text@] + record_texts(all.skip(i + 1), Seq::empty())));
                }
                let ghost held = corpus@;
                corpus.push(Fortune { source: String::from_str(source), text });
                proof {
                    assert(fortune_views(held).len() == held.len());
                    assert(with_source(source@, before).len() == before.len());
                    assert(fortune_views(corpus@).len() == done.len());
                    assert forall|k: int| 0 <= k < done.len() implies fortune_views(corpus@)[k]
                        == with_source(source@, done)[k] by {
                        if k < held.len() {
                            assert(fortune_views(held)[k] == with_source(source@, before)[k]);
                        }
                    }
                    assert(fortune_views(corpus@) =~= with_source(source@, done));
                }
            }
            start = i + 1;
        }
        i = i + 1;
    }
    proof {
        assert(all.skip(i as int) =~= Seq::<Seq<char>>::empty());
        assert(done + Seq::<Seq<char>>::empty() =~= done);
    }
    corpus
}

/// A file as the parser receives it: its path and the lines that could be
/// read from it.
#[derive(Debug, Clone)]
pub struct SourceFile {
    pub path: String,
    pub lines: Vec<String>,
}

/// The mathematical value of a [`SourceFile`].
pub struct SourceFileView {
    pub path: Seq<char>,
    pub lines: Seq<Seq<char>>,
}

impl View for SourceFile {
    type V = SourceFileView;

    open spec fn view(&self) -> SourceFileView {
        SourceFileView { path: self.path@, lines: string_views(self.lines@) }
    }
}

/// The values of a sequence of files, in order.
pub open spec fn file_views(files: Seq<SourceFile>) -> Seq<SourceFileView> {
    Seq::new(files.len(), |i: int| files[i]@)
}

/// Where the last component of `path` begins: behind its last `/`, or at 0.
pub open spec fn name_start(path: Seq<char>) -> int
    decreases path.len(),
{
    if path.len() == 0 {
        0
    } else if path.last() == '/' {
        path.len() as int
    } else {
        name_start(path.drop_last())
    }
}

/// The last component of `path`: what follows its last `/`.
pub open spec fn base_name(path: Seq<char>) -> Seq<char> {
    path.skip(name_start(path))
}

/// The corpus of `files`: the records of each file under its base name, file
/// after file, and within a file in order of appearance.
pub open spec fn corpus_of(files: Seq<SourceFileView>) -> Seq<FortuneView>
    decreases files.len(),
{
    if files.len() == 0 {
        Seq::empty()
    } else {
        corpus_of(files.drop_last()) + records_of(base_name(files.last().path), files.last().lines)
    }
}

/// The records of earlier files precede those of later files: the corpus of
/// two lists of files, one after the other, is the corpus of the first
/// followed by the corpus of the second.
pub proof fn lemma_corpus_follows_file_order(a: Seq<SourceFileView>, b: Seq<SourceFileView>)
    ensures
        corpus_of(a + b) == corpus_of(a) + corpus_of(b),
    decreases b.len(),
{
    if b.len() == 0 {
        assert(a + b =~= a);
        assert(corpus_of(a) + corpus_of(b) =~= corpus_of(a));
    } else {
        assert((a + b).drop_last() =~= a + b.drop_last());
        assert((a + b).last() == b.last());
        lemma_corpus_follows_file_order(a, b.drop_last());
        let tail = records_of(base_name(b.last().path), b.last().lines);
        assert((corpus_of(a) + corpus_of(b.drop_last())) + tail =~= corpus_of(a) + (corpus_of(
            b.drop_last(),
        ) + tail));
    }
}

/// The base name of `path`, the text behind its last `/`.
pub fn file_base_name(path: &str) -> (name: String)
    ensures
        name@ == base_name(path@),
{
    let len = path.unicode_len();
    let mut start: usize = 0;
    let mut i: usize = 0;
    proof {
        assert(path@.take(0) =~= Seq::<char>::empty());
    }
    while i < len
        invariant
            len == path@.len(),
            start <= i <= len,
            start == name_start(path@.take(i as int)),
        decreases len - i,
    {
        proof {
            assert(path@.take(i + 1).drop_last() =~= path@.take(i as int));
        }
        if path.get_char(i) == '/' {
            start = i + 1;
        }
        i = i + 1;
    }
    proof {
        assert(path@.take(len as int) =~= path@);
        assert(path@.subrange(start as int, len as int) =~= path@.skip(start as int));
    }
    String::from_str(path.substring_char(start, len))
}

/// Builds the corpus from the files in the order given.
pub fn read_fortunes(files: &Vec<SourceFile>) -> (corpus: Vec<Fortune>)
    ensures
        fortune_views(corpus@) == corpus_of(file_views(files@)),
{
    let mut corpus: Vec<Fortune> = Vec::new();
    let mut i: usize = 0;
    let ghost all = file_views(files@);
    proof {
        assert(all.take(0) =~= Seq::<SourceFileView>::empty());
        assert(fortune_views(corpus@) =~= corpus_of(all.take(0)));
    }
    while i < files.len()
        invariant
            i <= files@.len(),
            all == file_views(files@),
            fortune_views(corpus@) == corpus_of(all.take(i as int)),
        decreases files@.len() - i,
    {
        let name = file_base_name(files[i].path.as_str());
        let mut records = parse_records(name.as_str(), &files[i].lines);
        let ghost held = corpus@;
        let ghost added = records@;
        corpus.append(&mut records);
        proof {
            assert(all.take(i + 1).drop_last() =~= all.take(i as int));
            assert(all.take(i + 1).last() == files@[i as int]@);
            assert(corpus@ == held + added);
            assert(fortune_views(corpus@) =~= fortune_views(held) + fortune_views(added));
        }
        i = i + 1;
    }
    proof {
        assert(all.take(i as int) =~= all);
    }
    corpus
}

} // verus!
