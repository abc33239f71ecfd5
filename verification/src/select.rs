//! Selecting one record of the corpus at random, reproducibly under a seed.

use vstd::prelude::*;
use vstd::string::*;
use rand::rngs::StdRng;
use rand::seq::SliceRandom;
use rand::SeedableRng;
use crate::fortune::Fortune;

verus! {

/// The index that the standard generator, seeded with `seed`, draws first
/// from a slice of `len` items.
pub uninterp spec fn seeded_index(seed: u64, len: nat) -> nat;

/// Calls `rand::seq::SliceRandom::choose` on the fortunes with a
/// `rand::rngs::StdRng` made by `seed_from_u64(seed)`. Trusted: an empty
/// slice gives nothing; otherwise the item at an index below the length is
/// given, and that index depends on the seed and the length alone, which is
/// what `seeded_index` names.
#[verifier::external_body]
fn choose_seeded(fortunes: &Vec<Fortune>, seed: u64) -> (chosen: Option<&Fortune>)
    ensures
        chosen is None <==> fortunes@.len() == 0,
        chosen is Some ==> fortunes@.len() > seeded_index(seed, fortunes@.len()),
        chosen is Some ==> *chosen.unwrap() == fortunes@[seeded_index(seed, fortunes@.len()) as int],
{
    let mut generator = StdRng::seed_from_u64(seed);
    fortunes.choose(&mut generator)
}

/// Calls `rand::seq::SliceRandom::choose` on the fortunes with
/// `rand::thread_rng()`. Trusted: an empty slice gives nothing; otherwise
/// one of the items is given, and nothing is said of which.
#[verifier::external_body]
fn choose_unseeded(fortunes: &Vec<Fortune>) -> (chosen: Option<&Fortune>)
    ensures
        chosen is None <==> fortunes@.len() == 0,
        chosen is Some ==> fortunes@.contains(*chosen.unwrap()),
{
    let mut generator = rand::thread_rng();
    fortunes.choose(&mut generator)
}

/// The text to show where nothing could be selected.
pub open spec fn no_fortunes_text() -> Seq<char> {
    "No fortunes found"@
}

/// The text of the chosen record, if one was chosen.
pub fn chosen_text(chosen: Option<&Fortune>) -> (text: Option<String>)
    ensures
        match chosen {
            Some(fortune) => text is Some && text.unwrap()@ == fortune.text@,
            None => text is None,
        },
{
    match chosen {
        Some(fortune) => Some(fortune.text.clone()),
        None => None,
    }
}

/// Selects the text of one record: none from an empty corpus; under a seed
/// the record at the index that the seeded generator draws; without a seed
/// some record of the corpus.
pub fn pick_fortune(fortunes: &Vec<Fortune>, seed: Option<u64>) -> (picked: Option<String>)
    ensures
        picked is None <==> fortunes@.len() == 0,
        picked is Some ==> exists|i: int|
            0 <= i < fortunes@.len() && picked.unwrap()@ == fortunes@[i].text@,
        picked is Some && seed is Some ==> {
            let drawn = seeded_index(seed.unwrap(), fortunes@.len());
            drawn < fortunes@.len() && picked.unwrap()@ == fortunes@[drawn as int].text@
        },
{
    match seed {
        Some(value) => {
            let chosen = choose_seeded(fortunes, value);
            chosen_text(chosen)
        },
        None => {
            let chosen = choose_unseeded(fortunes);
            chosen_text(chosen)
        },
    }
}

/// The text to write for a selection: the picked text, or the fixed message
/// where nothing was picked.
pub fn text_or_default(picked: Option<String>) -> (text: String)
    ensures
        text@ == match picked {
            Some(found) => found@,
            None => no_fortunes_text(),
        },
{
    match picked {
        Some(found) => found,
        None => String::from_str("No fortunes found"),
    }
}

} // verus!
