//! The engine's stages behind discovery: building the corpus from what
//! reading the files gave, and answering in one of two modes, search by
//! pattern or selection of one record.

use vstd::prelude::*;
use vstd::string::*;
use crate::fortune::{
    Fortune, FortuneView, base_name, file_base_name, fortune_views, parse_records,
    records_of,
};
use crate::lines::{read_lines, text_lines};
use crate::pattern::{
    Emission, EmissionView, SearchPattern, emission_views, emissions_of, filter_fortunes, matches_of,
    render_matches,
};
use crate::select::{no_fortunes_text, pick_fortune, seeded_index, text_or_default};

verus! {

/// What reading one resolved file gave.
#[derive(Debug, Clone)]
pub enum ReadOutcome {
    /// The bytes of the file.
    Bytes(Vec<u8>),
    /// The file could not be opened; the text says why.
    Failed(String),
}

/// A resolved file with what reading it gave.
#[derive(Debug, Clone)]
pub struct FileRead {
    pub path: String,
    pub outcome: ReadOutcome,
}

/// The records that one read contributes: those of its bytes under the
/// file's base name, or none where the file could not be opened.
pub open spec fn records_read(read: FileRead) -> Seq<FortuneView> {
    match read.outcome {
        ReadOutcome::Bytes(bytes) => records_of(base_name(read.path@), text_lines(bytes@)),
        ReadOutcome::Failed(_) => Seq::empty(),
    }
}

/// The corpus of the reads: the records of each, file after file.
pub open spec fn corpus_read(reads: Seq<FileRead>) -> Seq<FortuneView>
    decreases reads.len(),
{
    if reads.len() == 0 {
        Seq::empty()
    } else {
        corpus_read(reads.drop_last()) + records_read(reads.last())
    }
}

/// The diagnostic for a file that could not be opened: its path, a colon
/// and a space, and the reason.
pub open spec fn open_failure(path: Seq<char>, reason: Seq<char>) -> EmissionView {
    EmissionView { diagnostic: true, text: path + ": "@ + reason }
}

/// The diagnostics of the reads: one for each file that could not be
/// opened, in order.
pub open spec fn failures_read(reads: Seq<FileRead>) -> Seq<EmissionView>
    decreases reads.len(),
{
    if reads.len() == 0 {
        Seq::empty()
    } else {
        match reads.last().outcome {
            ReadOutcome::Bytes(_) => failures_read(reads.drop_last()),
            ReadOutcome::Failed(reason) => failures_read(reads.drop_last()).push(
                open_failure(reads.last().path@, reason@),
            ),
        }
    }
}

/// Builds the corpus from what reading the resolved files gave.
///
/// A file that could not be opened contributes no record and one
/// diagnostic; the others contribute their records as if it were not there.
pub fn load_corpus(reads: &Vec<FileRead>) -> (loaded: (Vec<Fortune>, Vec<Emission>))
    ensures
        fortune_views(loaded.0@) == corpus_read(reads@),
        emission_views(loaded.1@) == failures_read(reads@),
{
    let mut corpus: Vec<Fortune> = Vec::new();
    let mut diagnostics: Vec<Emission> = Vec::new();
    let mut i: usize = 0;
    proof {
        assert(reads@.take(0) =~= Seq::<FileRead>::empty());
        assert(fortune_views(corpus@) =~= corpus_read(reads@.take(0)));
        assert(emission_views(diagnostics@) =~= failures_read(reads@.take(0)));
    }
    while i < reads.len()
        invariant
            i <= reads@.len(),
            fortune_views(corpus@) == corpus_read(reads@.take(i as int)),
            emission_views(diagnostics@) == failures_read(reads@.take(i as int)),
        decreases reads@.len() - i,
    {
        proof {
            assert(reads@.take(i + 1).drop_last() =~= reads@.take(i as int));
            assert(reads@.take(i + 1).last() == reads@[i as int]);
        }
        match &reads[i].outcome {
            ReadOutcome::Bytes(bytes) => {
                let name = file_base_name(reads[i].path.as_str());
                let lines = read_lines(bytes);
                let mut records = parse_records(name.as_str(), &lines);
                let ghost held = corpus@;
                let ghost added = records@;
                corpus.append(&mut records);
                proof {
                    assert(corpus@ == held + added);
                    assert(fortune_views(corpus@) =~= fortune_views(held) + fortune_views(added));
                }
            },
            ReadOutcome::Failed(reason) => {
                let ghost held = emission_views(diagnostics@);
                let text = reads[i].path.clone().concat(": ").concat(reason.as_str());
                diagnostics.push(Emission { diagnostic: true, text });
                proof {
                    assert(emission_views(diagnostics@) =~= held.push(
                        open_failure(reads@[i as int].path@, reason@),
                    ));
                    assert(corpus_read(reads@.take(i as int)) + Seq::<FortuneView>::empty()
                        =~= corpus_read(reads@.take(i as int)));
                }
            },
        }
        i = i + 1;
    }
    proof {
        assert(reads@.take(i as int) =~= reads@);
    }
    (corpus, diagnostics)
}

/// What to write for a corpus.
///
/// With a pattern: the matches in corpus order, laid out with their headers.
/// Without one: a single piece for the primary stream, holding the fixed
/// message for an empty corpus and the text of a selected record otherwise,
/// the one at the seeded index where a seed is given.
pub fn respond(corpus: &Vec<Fortune>, pattern: Option<&SearchPattern>, seed: Option<u64>) -> (out:
    Vec<Emission>)
    ensures
        pattern is Some ==> emission_views(out@) == emissions_of(
            matches_of(fortune_views(corpus@), *pattern.unwrap()),
        ),
        pattern is None ==> out@.len() == 1 && !out@[0].diagnostic,
        pattern is None && corpus@.len() == 0 ==> out@[0].text@ == no_fortunes_text(),
        pattern is None && corpus@.len() > 0 ==> exists|i: int|
            0 <= i < corpus@.len() && out@[0].text@ == corpus@[i].text@,
        pattern is None && corpus@.len() > 0 && seed is Some ==> {
            let drawn = seeded_index(seed.unwrap(), corpus@.len());
            drawn < corpus@.len() && out@[0].text@ == corpus@[drawn as int].text@
        },
{
    match pattern {
        Some(search) => {
            let found = filter_fortunes(corpus, search);
            render_matches(&found)
        },
        None => {
            let text = text_or_default(pick_fortune(corpus, seed));
            let mut out: Vec<Emission> = Vec::new();
            out.push(Emission { diagnostic: false, text });
            out
        },
    }
}

} // verus!
