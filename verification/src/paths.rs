//! Resolving source paths: what the probes of the given paths found is
//! gathered, put in byte-wise lexicographic order and freed of duplicates.

use vstd::prelude::*;
use vstd::string::*;
use vstd::utf8::*;
use crate::fortune::string_views;

verus! {

/// How one path stands to another in the canonical ordering.
#[derive(Debug, Clone, Copy, PartialEq, Eq, Structural)]
pub enum PathOrder {
    Before,
    Same,
    After,
}

/// The bytes by which a path is ordered: its UTF-8 encoding.
pub open spec fn path_key(path: Seq<char>) -> Seq<u8> {
    encode_utf8(path)
}

/// Lexicographic "less than" on bytes, given that `a` and `b` agree below `i`.
pub open spec fn lex_less_from(a: Seq<u8>, b: Seq<u8>, i: int) -> bool
    decreases a.len() - i,
{
    if i >= b.len() {
        false
    } else if i >= a.len() {
        true
    } else if a[i] != b[i] {
        a[i] < b[i]
    } else {
        lex_less_from(a, b, i + 1)
    }
}

/// `a` sorts strictly before `b`.
pub open spec fn path_before(a: Seq<char>, b: Seq<char>) -> bool {
    lex_less_from(path_key(a), path_key(b), 0)
}

/// Every earlier path sorts strictly before every later one.
pub open spec fn strictly_sorted(paths: Seq<Seq<char>>) -> bool {
    forall|i: int, j: int| 0 <= i < j < paths.len() ==> path_before(paths[i], paths[j])
}

proof fn lemma_lex_less_transitive(a: Seq<u8>, b: Seq<u8>, c: Seq<u8>, i: int)
    requires
        0 <= i,
        lex_less_from(a, b, i),
        lex_less_from(b, c, i),
    ensures
        lex_less_from(a, c, i),
    decreases a.len() - i,
{
    if i < a.len() && i < b.len() && i < c.len() && a[i] == b[i] && b[i] == c[i] {
        lemma_lex_less_transitive(a, b, c, i + 1);
    }
}

proof fn lemma_lex_less_irreflexive(a: Seq<u8>, i: int)
    requires
        0 <= i,
    ensures
        !lex_less_from(a, a, i),
    decreases a.len() - i,
{
    if i < a.len() {
        lemma_lex_less_irreflexive(a, i + 1);
    }
}

/// The ordering of paths is transitive.
pub proof fn lemma_path_before_transitive(a: Seq<char>, b: Seq<char>, c: Seq<char>)
    requires
        path_before(a, b),
        path_before(b, c),
    ensures
        path_before(a, c),
{
    lemma_lex_less_transitive(path_key(a), path_key(b), path_key(c), 0);
}

/// A strictly sorted sequence of paths holds no path twice.
pub proof fn lemma_sorted_has_no_duplicates(paths: Seq<Seq<char>>)
    requires
        strictly_sorted(paths),
    ensures
        forall|i: int, j: int| 0 <= i < j < paths.len() ==> paths[i] != paths[j],
{
    assert forall|i: int, j: int| 0 <= i < j < paths.len() implies paths[i] != paths[j] by {
        assert(path_before(paths[i], paths[j]));
        lemma_lex_less_irreflexive(path_key(paths[i]), 0);
    }
}

/// Compares two paths byte by byte.
pub fn compare_paths(a: &str, b: &str) -> (order: PathOrder)
    ensures
        (order == PathOrder::Before) == path_before(a@, b@),
        (order == PathOrder::Same) == (a@ == b@),
        (order == PathOrder::After) == path_before(b@, a@),
{
    let x = a.as_bytes();
    let y = b.as_bytes();
    let mut i: usize = 0;
    proof {
        encode_utf8_decode_utf8(a@);
        encode_utf8_decode_utf8(b@);
        lemma_lex_less_irreflexive(x@, 0);
    }
    while i < x.len() && i < y.len()
        invariant
            x@ == path_key(a@),
            y@ == path_key(b@),
            i <= x@.len(),
            i <= y@.len(),
            forall|k: int| 0 <= k < i ==> x@[k] == y@[k],
            lex_less_from(x@, y@, 0) == lex_less_from(x@, y@, i as int),
            lex_less_from(y@, x@, 0) == lex_less_from(y@, x@, i as int),
        decreases x@.len() - i,
    {
        if x[i] < y[i] {
            return PathOrder::Before;
        }
        if x[i] > y[i] {
            return PathOrder::After;
        }
        i = i + 1;
    }
    if i < y.len() {
        PathOrder::Before
    } else if i < x.len() {
        PathOrder::After
    } else {
        proof {
            assert(x@ =~= y@);
        }
        PathOrder::Same
    }
}

/// Puts `path` at its place in the sorted `paths`, unless it is there already.
fn insert_path(paths: &mut Vec<String>, path: String)
    requires
        strictly_sorted(string_views(old(paths)@)),
    ensures
        strictly_sorted(string_views(final(paths)@)),
        forall|x: Seq<char>|
            string_views(final(paths)@).contains(x) <==> (string_views(old(paths)@).contains(x) || x
                == path@),
        (forall|k: int|
            0 <= k < old(paths)@.len() ==> path_before(
                #[trigger] string_views(old(paths)@)[k],
                path@,
            )) ==> string_views(final(paths)@) == string_views(old(paths)@).push(path@),
{
    let ghost before = string_views(paths@);
    let mut at: usize = 0;
    let mut present = false;
    while at < paths.len()
        invariant_except_break
            !present,
        invariant
            at <= paths@.len(),
            before == string_views(paths@),
            forall|k: int| 0 <= k < at ==> path_before(#[trigger] before[k], path@),
        ensures
            at <= paths@.len(),
            before == string_views(paths@),
            forall|k: int| 0 <= k < at ==> path_before(#[trigger] before[k], path@),
            present ==> at < paths@.len() && before[at as int] == path@,
            !present && at < paths@.len() ==> path_before(path@, before[at as int]),
        decreases paths@.len() - at,
    {
        assert(before[at as int] == paths@[at as int]@);
        match compare_paths(paths[at].as_str(), path.as_str()) {
            PathOrder::Before => {
                at = at + 1;
            },
            PathOrder::Same => {
                present = true;
                break ;
            },
            PathOrder::After => {
                break ;
            },
        }
    }
    if present {
        proof {
            assert(before.contains(path@));
            if forall|k: int| 0 <= k < before.len() ==> path_before(#[trigger] before[k], path@) {
                lemma_lex_less_irreflexive(path_key(path@), 0);
                assert(path_before(before[at as int], path@));
            }
        }
    } else {
        paths.insert(at, path);
        proof {
            let after = string_views(paths@);
            assert(after =~= before.insert(at as int, path@));
            assert forall|i: int, j: int| 0 <= i < j < after.len() implies path_before(
                after[i],
                after[j],
            ) by {
                if j < at {
                    assert(after[i] == before[i] && after[j] == before[j]);
                } else if j == at {
                    assert(after[i] == before[i]);
                } else if i < at {
                    assert(after[i] == before[i] && after[j] == before[j - 1]);
                } else if i == at {
                    assert(after[j] == before[j - 1]);
                    if j - 1 > at {
                        lemma_path_before_transitive(path@, before[at as int], before[j - 1]);
                    }
                } else {
                    assert(after[i] == before[i - 1] && after[j] == before[j - 1]);
                }
            }
            assert forall|x: Seq<char>| after.contains(x) <==> (before.contains(x) || x
                == path@) by {
                if after.contains(x) {
                    let k = choose|k: int| 0 <= k < after.len() && after[k] == x;
                    if k < at {
                        assert(before[k] == x);
                    } else if k > at {
                        assert(before[k - 1] == x);
                    }
                }
                if before.contains(x) {
                    let k = choose|k: int| 0 <= k < before.len() && before[k] == x;
                    if k < at {
                        assert(after[k] == x);
                    } else {
                        assert(after[k + 1] == x);
                    }
                }
                if x == path@ {
                    assert(after[at as int] == x);
                }
            }
            if forall|k: int| 0 <= k < before.len() ==> path_before(#[trigger] before[k], path@) {
                if at < before.len() {
                    lemma_path_before_transitive(path@, before[at as int], path@);
                    lemma_lex_less_irreflexive(path_key(path@), 0);
                }
                assert(after =~= before.push(path@));
            }
        }
    }
}

/// `resolved` is a resolution of `found`: strictly sorted, and holding
/// exactly the paths that `found` holds.
pub open spec fn is_resolution_of(resolved: Seq<Seq<char>>, found: Seq<Seq<char>>) -> bool {
    &&& strictly_sorted(resolved)
    &&& forall|x: Seq<char>| resolved.contains(x) <==> found.contains(x)
}

/// A set of found paths has one resolution only: collecting twice over the
/// same state gives the same list.
pub proof fn lemma_resolution_is_unique(a: Seq<Seq<char>>, b: Seq<Seq<char>>, found: Seq<Seq<char>>)
    requires
        is_resolution_of(a, found),
        is_resolution_of(b, found),
    ensures
        a == b,
    decreases a.len(),
{
    if a.len() == 0 {
        if b.len() > 0 {
            assert(b.contains(b[0]));
            assert(a.contains(b[0]));
        }
        assert(a =~= b);
    } else {
        let x = a.last();
        assert(a.contains(x));
        assert(b.contains(x));
        lemma_last_of_sorted(a, b);
        let shorter_a = a.drop_last();
        let shorter_b = b.drop_last();
        lemma_drop_last_keeps_rest(a, b);
        lemma_drop_last_keeps_rest(b, a);
        assert(is_resolution_of(shorter_a, shorter_a));
        assert(is_resolution_of(shorter_b, shorter_a));
        lemma_resolution_is_unique(shorter_a, shorter_b, shorter_a);
        assert(a =~= shorter_a.push(x));
        assert(b =~= shorter_b.push(x));
    }
}

/// Strictly sorted lists with the same members end in the same path.
proof fn lemma_last_of_sorted(a: Seq<Seq<char>>, b: Seq<Seq<char>>)
    requires
        strictly_sorted(a),
        strictly_sorted(b),
        a.len() > 0,
        forall|x: Seq<char>| a.contains(x) <==> b.contains(x),
    ensures
        b.len() > 0,
        a.last() == b.last(),
{
    let x = a.last();
    assert(a.contains(x));
    let k = choose|k: int| 0 <= k < b.len() && b[k] == x;
    let y = b.last();
    assert(b.contains(y));
    let j = choose|j: int| 0 <= j < a.len() && a[j] == y;
    if k < b.len() - 1 && j < a.len() - 1 {
        assert(path_before(b[k], b[b.len() - 1]));
        assert(path_before(a[j], a[a.len() - 1]));
        lemma_path_before_transitive(x, y, x);
        lemma_lex_less_irreflexive(path_key(x), 0);
    }
}

/// Without their common last path, two strictly sorted lists with the same
/// members still have the same members.
proof fn lemma_drop_last_keeps_rest(a: Seq<Seq<char>>, b: Seq<Seq<char>>)
    requires
        strictly_sorted(a),
        strictly_sorted(b),
        a.len() > 0,
        b.len() > 0,
        a.last() == b.last(),
        forall|x: Seq<char>| a.contains(x) <==> b.contains(x),
    ensures
        strictly_sorted(a.drop_last()),
        forall|x: Seq<char>| a.drop_last().contains(x) ==> b.drop_last().contains(x),
{
    let shorter = a.drop_last();
    assert forall|i: int, j: int| 0 <= i < j < shorter.len() implies path_before(
        shorter[i],
        shorter[j],
    ) by {
        assert(path_before(a[i], a[j]));
    }
    assert forall|x: Seq<char>| shorter.contains(x) implies b.drop_last().contains(x) by {
        let i = choose|i: int| 0 <= i < shorter.len() && shorter[i] == x;
        assert(a[i] == x);
        assert(a.contains(x));
        let k = choose|k: int| 0 <= k < b.len() && b[k] == x;
        if k == b.len() - 1 {
            assert(path_before(a[i], a[a.len() - 1]));
            lemma_lex_less_irreflexive(path_key(x), 0);
        }
        assert(b.drop_last()[k] == x);
    }
}

/// Sorts the paths and drops every repetition.
///
/// The result is strictly sorted, holds exactly the paths of `found`, and is
/// `found` itself where that was strictly sorted already.
pub fn resolve_paths(found: &Vec<String>) -> (resolved: Vec<String>)
    ensures
        is_resolution_of(string_views(resolved@), string_views(found@)),
        strictly_sorted(string_views(found@)) ==> string_views(resolved@) == string_views(found@),
{
    let mut resolved: Vec<String> = Vec::new();
    let mut i: usize = 0;
    let ghost all = string_views(found@);
    proof {
        assert(string_views(resolved@) =~= all.take(0));
    }
    while i < found.len()
        invariant
            i <= found@.len(),
            all == string_views(found@),
            strictly_sorted(string_views(resolved@)),
            forall|x: Seq<char>|
                string_views(resolved@).contains(x) <==> all.take(i as int).contains(x),
            strictly_sorted(all) ==> string_views(resolved@) == all.take(i as int),
        decreases found@.len() - i,
    {
        let ghost held = string_views(resolved@);
        let path = found[i].clone();
        assert(path@ == all[i as int]);
        insert_path(&mut resolved, path);
        proof {
            let next = all.take(i + 1);
            assert(next =~= all.take(i as int).push(all[i as int]));
            assert forall|x: Seq<char>| string_views(resolved@).contains(x) <==> next.contains(
                x,
            ) by {
                if next.contains(x) {
                    let k = choose|k: int| 0 <= k < next.len() && next[k] == x;
                    if k < i {
                        assert(all.take(i as int)[k] == x);
                    }
                }
                if all.take(i as int).contains(x) {
                    let k = choose|k: int| 0 <= k < i && all.take(i as int)[k] == x;
                    assert(next[k] == x);
                }
                assert(next[i as int] == all[i as int]);
            }
            if strictly_sorted(all) {
                assert forall|k: int| 0 <= k < held.len() implies path_before(
                    #[trigger] held[k],
                    path@,
                ) by {
                    assert(held[k] == all[k]);
                }
            }
        }
        i = i + 1;
    }
    proof {
        assert(all.take(i as int) =~= all);
    }
    resolved
}

/// What inspecting one given path found.
#[derive(Debug, Clone)]
pub enum ProbeOutcome {
    /// The path is missing or could not be inspected; the text says why.
    Unreadable(String),
    /// The path is a regular file.
    File,
    /// The path is a directory; these are the regular files beneath it.
    Directory(Vec<String>),
    /// The path is neither a regular file nor a directory.
    Other,
}

/// A given path with what its inspection found.
#[derive(Debug, Clone)]
pub struct Probe {
    pub path: String,
    pub outcome: ProbeOutcome,
}

/// Why discovery failed: the offending path and the system's reason.
#[derive(Debug, Clone)]
pub struct DiscoveryError {
    pub path: String,
    pub reason: String,
}

impl DiscoveryError {
    /// The error as text: the path, a colon and a space, and the reason.
    pub fn message(&self) -> (text: String)
        ensures
            text@ == self.path@ + ": "@ + self.reason@,
    {
        self.path.clone().concat(": ").concat(self.reason.as_str())
    }
}

/// The inspection of this path failed.
pub open spec fn is_unreadable(probe: Probe) -> bool {
    probe.outcome is Unreadable
}

/// The files that one probe contributes.
pub open spec fn candidates(probe: Probe) -> Seq<Seq<char>> {
    match probe.outcome {
        ProbeOutcome::File => seq![probe.path@],
        ProbeOutcome::Directory(files) => string_views(files@),
        _ => Seq::empty(),
    }
}

/// The files that the probes contribute together, in the order given.
pub open spec fn gathered(probes: Seq<Probe>) -> Seq<Seq<char>>
    decreases probes.len(),
{
    if probes.len() == 0 {
        Seq::empty()
    } else {
        gathered(probes.drop_last()) + candidates(probes.last())
    }
}

/// `k` is the first probe whose inspection failed.
pub open spec fn is_first_unreadable(probes: Seq<Probe>, k: int) -> bool {
    &&& 0 <= k < probes.len()
    &&& is_unreadable(probes[k])
    &&& forall|j: int| 0 <= j < k ==> !is_unreadable(#[trigger] probes[j])
}

/// `error` reports the first probe whose inspection failed.
pub open spec fn reports_first_unreadable(error: DiscoveryError, probes: Seq<Probe>) -> bool {
    exists|k: int|
        is_first_unreadable(probes, k) && error.path@ == probes[k].path@ && error.reason@
            == probes[k].outcome->Unreadable_0@
}

/// No probe's inspection failed.
pub open spec fn all_readable(probes: Seq<Probe>) -> bool {
    forall|k: int| 0 <= k < probes.len() ==> !is_unreadable(#[trigger] probes[k])
}

/// Appends a copy of each of `files` to `found`.
fn push_all(found: &mut Vec<String>, files: &Vec<String>)
    ensures
        string_views(final(found)@) == string_views(old(found)@) + string_views(files@),
{
    let ghost before = string_views(found@);
    let mut j: usize = 0;
    proof {
        assert(string_views(found@) =~= before + string_views(files@).take(0));
    }
    while j < files.len()
        invariant
            j <= files@.len(),
            string_views(found@) == before + string_views(files@).take(j as int),
        decreases files@.len() - j,
    {
        let ghost held = string_views(found@);
        found.push(files[j].clone());
        proof {
            assert(string_views(found@) =~= held.push(files@[j as int]@));
            assert(string_views(files@).take(j + 1) =~= string_views(files@).take(j as int).push(
                files@[j as int]@,
            ));
            assert(string_views(found@) =~= before + string_views(files@).take(j + 1));
        }
        j = j + 1;
    }
    proof {
        assert(string_views(files@).take(j as int) =~= string_views(files@));
    }
}

/// Gathers the files that the probes contribute, failing at the first probe
/// whose inspection failed, whatever the other probes hold.
pub fn gather_files(probes: &Vec<Probe>) -> (result: Result<Vec<String>, DiscoveryError>)
    ensures
        match result {
            Ok(found) => all_readable(probes@) && string_views(found@) == gathered(probes@),
            Err(error) => reports_first_unreadable(error, probes@),
        },
{
    let mut found: Vec<String> = Vec::new();
    let mut i: usize = 0;
    proof {
        assert(probes@.take(0) =~= Seq::<Probe>::empty());
        assert(string_views(found@) =~= gathered(probes@.take(0)));
    }
    while i < probes.len()
        invariant
            i <= probes@.len(),
            forall|k: int| 0 <= k < i ==> !is_unreadable(#[trigger] probes@[k]),
            string_views(found@) == gathered(probes@.take(i as int)),
        decreases probes@.len() - i,
    {
        let ghost held = string_views(found@);
        proof {
            assert(probes@.take(i + 1).drop_last() =~= probes@.take(i as int));
            assert(probes@.take(i + 1).last() == probes@[i as int]);
        }
        match &probes[i].outcome {
            ProbeOutcome::Unreadable(reason) => {
                proof {
                    assert(is_first_unreadable(probes@, i as int));
                }
                return Err(DiscoveryError { path: probes[i].path.clone(), reason: reason.clone() });
            },
            ProbeOutcome::File => {
                found.push(probes[i].path.clone());
                proof {
                    assert(string_views(found@) =~= held + seq![probes@[i as int].path@]);
                }
            },
            ProbeOutcome::Directory(files) => {
                push_all(&mut found, files);
            },
            ProbeOutcome::Other => {
                proof {
                    assert(held + Seq::<Seq<char>>::empty() =~= held);
                }
            },
        }
        i = i + 1;
    }
    proof {
        assert(probes@.take(i as int) =~= probes@);
    }
    Ok(found)
}

/// Resolves the probes of the given paths into the canonical file list:
/// sorted, without duplicates, holding exactly the files that the probes
/// contribute. One failed probe fails the whole, wherever it stands.
pub fn find_files(probes: &Vec<Probe>) -> (result: Result<Vec<String>, DiscoveryError>)
    ensures
        match result {
            Ok(files) => {
                &&& all_readable(probes@)
                &&& is_resolution_of(string_views(files@), gathered(probes@))
                &&& strictly_sorted(gathered(probes@)) ==> string_views(files@) == gathered(probes@)
            },
            Err(error) => reports_first_unreadable(error, probes@),
        },
{
    match gather_files(probes) {
        Ok(found) => Ok(resolve_paths(&found)),
        Err(error) => Err(error),
    }
}

} // verus!
