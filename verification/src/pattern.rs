//! Searching the corpus: a validated search pattern, the records that it
//! finds, and the lines to write for them.

use vstd::prelude::*;
use vstd::string::*;
use regex::RegexBuilder;
use crate::config::ConfigError;
use crate::fortune::{Fortune, FortuneView, fortune_views};

verus! {

/// Whether `pattern`, read with or without regard to case, is a regular
/// expression that the regex engine accepts.
pub uninterp spec fn pattern_compiles(pattern: Seq<char>, insensitive: bool) -> bool;

/// Whether the regular expression `pattern`, read with or without regard to
/// case, has a match anywhere in `text`.
pub uninterp spec fn pattern_finds(pattern: Seq<char>, insensitive: bool, text: Seq<char>) -> bool;

/// Calls `regex::RegexBuilder::build` on `pattern` with the case flag set as
/// given, and tells whether it built. Trusted: that the outcome depends on
/// the pattern and the flag alone, which is what `pattern_compiles` names.
#[verifier::external_body]
fn regex_compiles(pattern: &str, insensitive: bool) -> (ok: bool)
    ensures
        ok == pattern_compiles(pattern@, insensitive),
{
    RegexBuilder::new(pattern).case_insensitive(insensitive).build().is_ok()
}

/// Calls `regex::Regex::is_match` on `text`, with the expression built from
/// `pattern` and the case flag. Trusted: that the answer depends on the
/// pattern, the flag and the text alone, which is what `pattern_finds` names.
#[verifier::external_body]
fn regex_is_match(pattern: &str, insensitive: bool, text: &str) -> (found: bool)
    requires
        pattern_compiles(pattern@, insensitive),
    ensures
        found == pattern_finds(pattern@, insensitive, text@),
{
    match RegexBuilder::new(pattern).case_insensitive(insensitive).build() {
        Ok(expression) => expression.is_match(text),
        Err(_) => false,
    }
}

/// A search pattern that is known to be a valid regular expression.
#[derive(Debug)]
pub struct SearchPattern {
    pattern: String,
    insensitive: bool,
}

impl SearchPattern {
    #[verifier::type_invariant]
    spec fn well_formed(self) -> bool {
        pattern_compiles(self.pattern@, self.insensitive)
    }

    /// The text of the pattern.
    pub closed spec fn text(self) -> Seq<char> {
        self.pattern@
    }

    /// Whether the pattern disregards case.
    pub closed spec fn is_insensitive(self) -> bool {
        self.insensitive
    }

    /// Whether the pattern has a match anywhere in `text`.
    pub open spec fn finds(self, text: Seq<char>) -> bool {
        pattern_finds(self.text(), self.is_insensitive(), text)
    }

    /// Validates `pattern`; it is accepted exactly when the regex engine
    /// compiles it, and the error echoes the pattern otherwise.
    pub fn new(pattern: &str, insensitive: bool) -> (result: Result<SearchPattern, ConfigError>)
        ensures
            result is Ok <==> pattern_compiles(pattern@, insensitive),
            match result {
                Ok(made) => made.text() == pattern@ && made.is_insensitive() == insensitive,
                Err(error) => error is InvalidPattern && error->InvalidPattern_0@ == pattern@,
            },
    {
        if regex_compiles(pattern, insensitive) {
            Ok(SearchPattern { pattern: String::from_str(pattern), insensitive })
        } else {
            Err(ConfigError::InvalidPattern(String::from_str(pattern)))
        }
    }

    /// Tells whether the pattern has a match anywhere in `text`.
    pub fn is_match(&self, text: &str) -> (found: bool)
        ensures
            found == self.finds(text@),
    {
        proof {
            use_type_invariant(self);
        }
        regex_is_match(self.pattern.as_str(), self.insensitive, text)
    }
}

/// The records of `corpus` whose text the pattern finds, in corpus order.
pub open spec fn matches_of(corpus: Seq<FortuneView>, pattern: SearchPattern) -> Seq<FortuneView>
    decreases corpus.len(),
{
    if corpus.len() == 0 {
        Seq::empty()
    } else if pattern.finds(corpus.last().text) {
        matches_of(corpus.drop_last(), pattern).push(corpus.last())
    } else {
        matches_of(corpus.drop_last(), pattern)
    }
}

/// The matches are no more than the corpus holds, each is a record of the
/// corpus, and the pattern finds each.
pub proof fn lemma_matches_come_from_corpus(corpus: Seq<FortuneView>, pattern: SearchPattern)
    ensures
        matches_of(corpus, pattern).len() <= corpus.len(),
        forall|i: int|
            0 <= i < matches_of(corpus, pattern).len() ==> {
                &&& corpus.contains(#[trigger] matches_of(corpus, pattern)[i])
                &&& pattern.finds(matches_of(corpus, pattern)[i].text)
            },
    decreases corpus.len(),
{
    if corpus.len() > 0 {
        let earlier = corpus.drop_last();
        lemma_matches_come_from_corpus(earlier, pattern);
        assert forall|i: int| 0 <= i < matches_of(corpus, pattern).len() implies {
            &&& corpus.contains(#[trigger] matches_of(corpus, pattern)[i])
            &&& pattern.finds(matches_of(corpus, pattern)[i].text)
        } by {
            let found = matches_of(corpus, pattern)[i];
            if i < matches_of(earlier, pattern).len() {
                assert(found == matches_of(earlier, pattern)[i]);
                let k = choose|k: int| 0 <= k < earlier.len() && earlier[k] == found;
                assert(corpus[k] == found);
            } else {
                assert(found == corpus[corpus.len() - 1]);
            }
        }
    }
}

/// Filtering what was filtered changes nothing.
pub proof fn lemma_filter_is_idempotent(corpus: Seq<FortuneView>, pattern: SearchPattern)
    ensures
        matches_of(matches_of(corpus, pattern), pattern) == matches_of(corpus, pattern),
    decreases corpus.len(),
{
    if corpus.len() > 0 {
        let earlier = corpus.drop_last();
        lemma_filter_is_idempotent(earlier, pattern);
        if pattern.finds(corpus.last().text) {
            let found = matches_of(corpus, pattern);
            assert(found.drop_last() =~= matches_of(earlier, pattern));
            assert(found.last() == corpus.last());
        }
    }
}

/// Every record whose text the pattern finds, in corpus order.
pub fn filter_fortunes(corpus: &Vec<Fortune>, pattern: &SearchPattern) -> (found: Vec<Fortune>)
    ensures
        fortune_views(found@) == matches_of(fortune_views(corpus@), *pattern),
{
    let mut found: Vec<Fortune> = Vec::new();
    let mut i: usize = 0;
    let ghost all = fortune_views(corpus@);
    proof {
        assert(all.take(0) =~= Seq::<FortuneView>::empty());
        assert(fortune_views(found@) =~= matches_of(all.take(0), *pattern));
    }
    while i < corpus.len()
        invariant
            i <= corpus@.len(),
            all == fortune_views(corpus@),
            fortune_views(found@) == matches_of(all.take(i as int), *pattern),
        decreases corpus@.len() - i,
    {
        proof {
            assert(all.take(i + 1).drop_last() =~= all.take(i as int));
            assert(all.take(i + 1).last() == corpus@[i as int]@);
        }
        if pattern.is_match(corpus[i].text.as_str()) {
            let ghost held = fortune_views(found@);
            found.push(
                Fortune { source: corpus[i].source.clone(), text: corpus[i].text.clone() },
            );
            proof {
                assert(fortune_views(found@) =~= held.push(corpus@[i as int]@));
            }
        }
        i = i + 1;
    }
    proof {
        assert(all.take(i as int) =~= all);
    }
    found
}

/// One piece of output: its text, and whether it goes to the diagnostic
/// stream instead of the primary one.
#[derive(Debug, Clone)]
pub struct Emission {
    pub diagnostic: bool,
    pub text: String,
}

/// The mathematical value of an [`Emission`].
pub struct EmissionView {
    pub diagnostic: bool,
    pub text: Seq<char>,
}

impl View for Emission {
    type V = EmissionView;

    open spec fn view(&self) -> EmissionView {
        EmissionView { diagnostic: self.diagnostic, text: self.text@ }
    }
}

/// The values of a sequence of emissions, in order.
pub open spec fn emission_views(out: Seq<Emission>) -> Seq<EmissionView> {
    Seq::new(out.len(), |i: int| out[i]@)
}

/// The header of a source: its name in parentheses, then a delimiter line.
pub open spec fn header_of(source: Seq<char>) -> EmissionView {
    EmissionView { diagnostic: true, text: "("@ + source + ")\n%"@ }
}

/// The body of a match: its text, then a delimiter line.
pub open spec fn body_of(text: Seq<char>) -> EmissionView {
    EmissionView { diagnostic: false, text: text + "\n%"@ }
}

/// What to write for the matches: each record's body, and before it a header
/// wherever its source differs from that of the match just before it.
pub open spec fn emissions_of(found: Seq<FortuneView>) -> Seq<EmissionView>
    decreases found.len(),
{
    if found.len() == 0 {
        Seq::empty()
    } else {
        let earlier = found.drop_last();
        let last = found.last();
        if earlier.len() == 0 || earlier.last().source != last.source {
            emissions_of(earlier).push(header_of(last.source)).push(body_of(last.text))
        } else {
            emissions_of(earlier).push(body_of(last.text))
        }
    }
}

/// Lays out the matches for writing, headers by adjacency.
pub fn render_matches(found: &Vec<Fortune>) -> (out: Vec<Emission>)
    ensures
        emission_views(out@) == emissions_of(fortune_views(found@)),
{
    let mut out: Vec<Emission> = Vec::new();
    let mut i: usize = 0;
    let ghost all = fortune_views(found@);
    proof {
        assert(all.take(0) =~= Seq::<FortuneView>::empty());
        assert(emission_views(out@) =~= emissions_of(all.take(0)));
    }
    while i < found.len()
        invariant
            i <= found@.len(),
            all == fortune_views(found@),
            emission_views(out@) == emissions_of(all.take(i as int)),
        decreases found@.len() - i,
    {
        proof {
            assert(all.take(i + 1).drop_last() =~= all.take(i as int));
            assert(all.take(i + 1).last() == found@[i as int]@);
            if i > 0 {
                assert(all.take(i as int).last() == found@[i - 1]@);
            }
        }
        let ghost held = emission_views(out@);
        if i == 0 || found[i - 1].source != found[i].source {
            let header = String::from_str("(").concat(found[i].source.as_str()).concat(")\n%");
            out.push(Emission { diagnostic: true, text: header });
        }
        let ghost with_header = emission_views(out@);
        let body = found[i].text.clone().concat("\n%");
        out.push(Emission { diagnostic: false, text: body });
        proof {
            assert(with_header =~= if i == 0 || found@[i - 1].source@ != found@[i as int].source@ {
                held.push(header_of(found@[i as int].source@))
            } else {
                held
            });
            assert(emission_views(out@) =~= with_header.push(body_of(found@[i as int].text@)));
        }
        i = i + 1;
    }
    proof {
        assert(all.take(i as int) =~= all);
    }
    out
}

} // verus!
