//! The reconciliation engine: cross-references the declared track locations
//! of a document against a directory listing and a set of paths known to
//! exist, and produces a report of missing files, not-imported files,
//! duplicate filenames, and relocation candidates.
//!
//! Every check is pure given its inputs; inability to resolve a location
//! degrades to an empty contribution, never an error.

use vstd::prelude::*;

use crate::locator::resolved_of;
use crate::locator::resolve_location;
use crate::model::TrackV;
use crate::paths::basename;
use crate::paths::file_name;
use crate::rekordbox_xml::RekordboxXml;

verus! {

broadcast use vstd::std_specs::vec::group_vec_axioms, vstd::seq::group_seq_axioms;

/// One group of same-named paths, keyed by the path (or filename) they match.
#[derive(Debug, Clone, PartialEq)]
pub struct MatchGroup {
    pub key: String,
    pub matches: Vec<String>,
}

pub struct GroupV {
    pub key: Seq<char>,
    pub matches: Seq<Seq<char>>,
}

impl DeepView for MatchGroup {
    type V = GroupV;

    open spec fn deep_view(&self) -> GroupV {
        GroupV { key: self.key@, matches: self.matches.deep_view() }
    }
}

/// What the four checks produced. `not_imported` holds each path once, in
/// order of first occurrence; `duplicates` and `relocated` are association
/// lists with pairwise-distinct keys, in first-contribution order.
#[derive(Debug, PartialEq)]
pub struct AnalyzerReport {
    pub missing: Vec<String>,
    pub not_imported: Vec<String>,
    pub duplicates: Vec<MatchGroup>,
    pub relocated: Vec<MatchGroup>,
}

/// The location attribute of each track, in document order.
pub open spec fn track_locations(ts: Seq<TrackV>) -> Seq<Seq<char>> {
    ts.map_values(|t: TrackV| t.location)
}

/// The resolved path of every track whose location resolves, in document
/// order.
pub open spec fn resolved_paths(locs: Seq<Seq<char>>) -> Seq<Seq<char>>
    decreases locs.len(),
{
    if locs.len() == 0 {
        Seq::empty()
    } else {
        let rest = resolved_paths(locs.drop_last());
        match resolved_of(locs.last()) {
            Some(p) => rest.push(p),
            None => rest,
        }
    }
}

/// The missing check: the resolved path of every track that resolves and is
/// not among the existing paths, in document order.
pub open spec fn missing_of(locs: Seq<Seq<char>>, existing: Seq<Seq<char>>) -> Seq<Seq<char>>
    decreases locs.len(),
{
    if locs.len() == 0 {
        Seq::empty()
    } else {
        let rest = missing_of(locs.drop_last(), existing);
        match resolved_of(locs.last()) {
            Some(p) => if !existing.contains(p) {
                rest.push(p)
            } else {
                rest
            },
            None => rest,
        }
    }
}

pub proof fn lemma_contains_push<A>(s: Seq<A>, e: A, x: A)
    ensures
        s.push(e).contains(x) <==> (s.contains(x) || x == e),
{
    if s.push(e).contains(x) {
        let k = choose|k: int| 0 <= k < s.push(e).len() && s.push(e)[k] == x;
        if k < s.len() {
            assert(s[k] == x);
        }
    }
    if s.contains(x) {
        let k = choose|k: int| 0 <= k < s.len() && s[k] == x;
        assert(s.push(e)[k] == x);
    }
    if x == e {
        assert(s.push(e)[s.len() as int] == x);
    }
}

/// The set difference `a` minus `b`: the entries of `a` that are not in
/// `b`, each kept once, in order of first occurrence.
pub open spec fn diff_of(a: Seq<Seq<char>>, b: Seq<Seq<char>>) -> Seq<Seq<char>>
    decreases a.len(),
{
    if a.len() == 0 {
        Seq::empty()
    } else {
        let rest = diff_of(a.drop_last(), b);
        if !b.contains(a.last()) && !a.drop_last().contains(a.last()) {
            rest.push(a.last())
        } else {
            rest
        }
    }
}

/// Membership in the difference is exactly membership in `a` and not `b`.
pub proof fn lemma_diff_of_membership(a: Seq<Seq<char>>, b: Seq<Seq<char>>, x: Seq<char>)
    ensures
        diff_of(a, b).contains(x) <==> (a.contains(x) && !b.contains(x)),
    decreases a.len(),
{
    if a.len() > 0 {
        let pre = a.drop_last();
        lemma_diff_of_membership(pre, b, x);
        assert(pre.push(a.last()) =~= a);
        lemma_contains_push(pre, a.last(), x);
        if !b.contains(a.last()) && !pre.contains(a.last()) {
            lemma_contains_push(diff_of(pre, b), a.last(), x);
        }
    }
}

/// The difference holds no entry twice.
pub proof fn lemma_diff_of_distinct(a: Seq<Seq<char>>, b: Seq<Seq<char>>)
    ensures
        forall|i: int, j: int|
            0 <= i < j < diff_of(a, b).len() ==> diff_of(a, b)[i] != diff_of(a, b)[j],
    decreases a.len(),
{
    if a.len() > 0 {
        let pre = a.drop_last();
        lemma_diff_of_distinct(pre, b);
        let rest = diff_of(pre, b);
        if !b.contains(a.last()) && !pre.contains(a.last()) {
            assert forall|i: int, j: int|
                0 <= i < j < diff_of(a, b).len() implies diff_of(a, b)[i] != diff_of(a, b)[j] by {
                if j == rest.len() {
                    if rest[i] == a.last() {
                        assert(rest.contains(a.last()));
                        lemma_diff_of_membership(pre, b, a.last());
                    }
                }
            }
        }
    }
}

/// The not-imported check: the directory listing minus the resolved track
/// paths, each once, in order of first occurrence.
pub open spec fn not_imported_of(locs: Seq<Seq<char>>, listing: Seq<Seq<char>>) -> Seq<Seq<char>> {
    diff_of(listing, resolved_paths(locs))
}

/// The listing entries that share a filename with `key` but are a different
/// path.
pub open spec fn group_for(key: Seq<char>, listing: Seq<Seq<char>>) -> Seq<Seq<char>> {
    listing.filter(|f: Seq<char>| f != key && basename(f) == basename(key))
}

pub open spec fn keys_of(gs: Seq<GroupV>) -> Seq<Seq<char>> {
    gs.map_values(|g: GroupV| g.key)
}

/// The duplicate check: for each track in document order whose location
/// resolves, the same-named listing entries grouped under the track's own
/// path; a path with no same-named sibling, and a path already keyed,
/// contribute nothing.
pub open spec fn duplicates_of(locs: Seq<Seq<char>>, listing: Seq<Seq<char>>) -> Seq<GroupV>
    decreases locs.len(),
{
    if locs.len() == 0 {
        Seq::empty()
    } else {
        let rest = duplicates_of(locs.drop_last(), listing);
        match resolved_of(locs.last()) {
            Some(p) => {
                let g = group_for(p, listing);
                if g.len() > 0 && !keys_of(rest).contains(p) {
                    rest.push(GroupV { key: p, matches: g })
                } else {
                    rest
                }
            },
            None => rest,
        }
    }
}

/// The not-imported entries whose filename equals `key`.
pub open spec fn reloc_matches(key: Seq<char>, not_imported: Seq<Seq<char>>) -> Seq<Seq<char>> {
    not_imported.filter(|n: Seq<char>| basename(n) == key)
}

/// The relocation check: for each missing path in order, every not-imported
/// path with the same filename, grouped under that filename; multiple
/// candidates accumulate under one key, and a filename already keyed
/// contributes nothing further.
pub open spec fn relocated_of(missing: Seq<Seq<char>>, not_imported: Seq<Seq<char>>) -> Seq<GroupV>
    decreases missing.len(),
{
    if missing.len() == 0 {
        Seq::empty()
    } else {
        let rest = relocated_of(missing.drop_last(), not_imported);
        let key = basename(missing.last());
        let ms = reloc_matches(key, not_imported);
        if ms.len() > 0 && !keys_of(rest).contains(key) {
            rest.push(GroupV { key, matches: ms })
        } else {
            rest
        }
    }
}

/// Whether the file a location URI points at exists, against an explicit
/// collection of existing paths: the location must resolve and its resolved
/// path must be listed.
pub open spec fn spec_file_exists(uri: Seq<char>, existing: Seq<Seq<char>>) -> bool {
    resolved_of(uri) is Some && existing.contains(resolved_of(uri).unwrap())
}

proof fn lemma_missing_step(locs: Seq<Seq<char>>, ex: Seq<Seq<char>>, i: int)
    requires
        0 <= i < locs.len(),
    ensures
        missing_of(locs.take(i + 1), ex) == (match resolved_of(locs[i]) {
            Some(p) => if !ex.contains(p) {
                missing_of(locs.take(i), ex).push(p)
            } else {
                missing_of(locs.take(i), ex)
            },
            None => missing_of(locs.take(i), ex),
        }),
{
    assert(locs.take(i + 1).drop_last() =~= locs.take(i));
    assert(locs.take(i + 1).last() == locs[i]);
}

proof fn lemma_resolved_step(locs: Seq<Seq<char>>, i: int)
    requires
        0 <= i < locs.len(),
    ensures
        resolved_paths(locs.take(i + 1)) == (match resolved_of(locs[i]) {
            Some(p) => resolved_paths(locs.take(i)).push(p),
            None => resolved_paths(locs.take(i)),
        }),
{
    assert(locs.take(i + 1).drop_last() =~= locs.take(i));
    assert(locs.take(i + 1).last() == locs[i]);
}

proof fn lemma_duplicates_step(locs: Seq<Seq<char>>, lst: Seq<Seq<char>>, i: int)
    requires
        0 <= i < locs.len(),
    ensures
        duplicates_of(locs.take(i + 1), lst) == (match resolved_of(locs[i]) {
            Some(p) => {
                let rest = duplicates_of(locs.take(i), lst);
                let g = group_for(p, lst);
                if g.len() > 0 && !keys_of(rest).contains(p) {
                    rest.push(GroupV { key: p, matches: g })
                } else {
                    rest
                }
            },
            None => duplicates_of(locs.take(i), lst),
        }),
{
    assert(locs.take(i + 1).drop_last() =~= locs.take(i));
    assert(locs.take(i + 1).last() == locs[i]);
}

proof fn lemma_relocated_step(missing: Seq<Seq<char>>, ni: Seq<Seq<char>>, i: int)
    requires
        0 <= i < missing.len(),
    ensures
        relocated_of(missing.take(i + 1), ni) == ({
            let rest = relocated_of(missing.take(i), ni);
            let key = basename(missing[i]);
            let ms = reloc_matches(key, ni);
            if ms.len() > 0 && !keys_of(rest).contains(key) {
                rest.push(GroupV { key, matches: ms })
            } else {
                rest
            }
        }),
{
    assert(missing.take(i + 1).drop_last() =~= missing.take(i));
    assert(missing.take(i + 1).last() == missing[i]);
}

fn contains_str(v: &Vec<String>, s: &String) -> (r: bool)
    ensures
        r == v.deep_view().contains(s@),
{
    let mut i: usize = 0;
    while i < v.len()
        invariant
            i <= v.len(),
            forall|j: int| 0 <= j < i ==> v.deep_view()[j] != s@,
        decreases v.len() - i,
    {
        if s.eq(&v[i]) {
            assert(v.deep_view()[i as int] == s@);
            return true;
        }
        i += 1;
    }
    false
}

/// Whether `file_url` resolves to a path listed in `existing`.
pub fn check_file_exists(file_url: &str, existing: &Vec<String>) -> (r: bool)
    ensures
        r == spec_file_exists(file_url@, existing.deep_view()),
{
    match resolve_location(file_url) {
        Some(p) => contains_str(existing, &p),
        None => false,
    }
}

/// The entries of `paths_a` that do not occur in `paths_b` — a set
/// difference: each such entry once, in order of first occurrence.
pub fn paths_diff(paths_a: &Vec<String>, paths_b: &Vec<String>) -> (r: Vec<String>)
    ensures
        r.deep_view() == diff_of(paths_a.deep_view(), paths_b.deep_view()),
{
    let mut out: Vec<String> = Vec::new();
    let mut i: usize = 0;
    while i < paths_a.len()
        invariant
            i <= paths_a.len(),
            out.deep_view() == diff_of(paths_a.deep_view().take(i as int), paths_b.deep_view()),
        decreases paths_a.len() - i,
    {
        let ghost a = paths_a.deep_view();
        let ghost b = paths_b.deep_view();
        let ghost pre = a.take(i as int);
        let ghost outpre = out.deep_view();
        proof {
            assert(a.take(i + 1).drop_last() =~= pre);
            assert(a.take(i + 1).last() == a[i as int]);
            lemma_diff_of_membership(pre, b, a[i as int]);
        }
        let absent = !contains_str(paths_b, &paths_a[i]);
        if absent {
            let fresh = !contains_str(&out, &paths_a[i]);
            if fresh {
                out.push(paths_a[i].clone());
                proof {
                    assert(out.deep_view() =~= outpre.push(a[i as int]));
                    assert(out.deep_view() =~= diff_of(a.take(i + 1), b));
                }
            } else {
                proof {
                    assert(out.deep_view() =~= diff_of(a.take(i + 1), b));
                }
            }
        } else {
            proof {
                assert(out.deep_view() =~= diff_of(a.take(i + 1), b));
            }
        }
        i += 1;
    }
    proof {
        assert(paths_a.deep_view().take(paths_a.len() as int) =~= paths_a.deep_view());
    }
    out
}

/// The reconciliation engine. It consumes a document, a directory listing
/// (already filtered to supported extensions), and the collection of paths
/// known to exist on disk; `run` fills `report`.
pub struct Analyzer {
    pub xml: RekordboxXml,
    pub report: AnalyzerReport,
    pub folder_contents: Vec<String>,
    pub existing: Vec<String>,
}

impl Analyzer {
    pub open spec fn spec_locations(&self) -> Seq<Seq<char>> {
        track_locations(self.xml.doc.tracks.deep_view())
    }

    pub open spec fn spec_listing(&self) -> Seq<Seq<char>> {
        self.folder_contents.deep_view()
    }

    pub open spec fn spec_existing(&self) -> Seq<Seq<char>> {
        self.existing.deep_view()
    }

    /// Builds an engine over a document, the listing of the scanned
    /// directory, and the paths that exist on disk. The report starts empty.
    pub fn new(xml: RekordboxXml, folder_contents: Vec<String>, existing: Vec<String>) -> (r: Self)
        ensures
            r.xml == xml,
            r.folder_contents == folder_contents,
            r.existing == existing,
            r.report.missing@.len() == 0,
            r.report.not_imported@.len() == 0,
            r.report.duplicates@.len() == 0,
            r.report.relocated@.len() == 0,
    {
        Analyzer {
            xml,
            report: AnalyzerReport {
                missing: Vec::new(),
                not_imported: Vec::new(),
                duplicates: Vec::new(),
                relocated: Vec::new(),
            },
            folder_contents,
            existing,
        }
    }

    /// Runs the four checks in order, on a fresh report. Afterwards each
    /// report field equals its check's specification exactly.
    pub fn run(&mut self)
        ensures
            final(self).xml == old(self).xml,
            final(self).folder_contents == old(self).folder_contents,
            final(self).existing == old(self).existing,
            final(self).report.missing.deep_view() == missing_of(
                old(self).spec_locations(),
                old(self).spec_existing(),
            ),
            final(self).report.not_imported.deep_view() == not_imported_of(
                old(self).spec_locations(),
                old(self).spec_listing(),
            ),
            final(self).report.duplicates.deep_view() == duplicates_of(
                old(self).spec_locations(),
                old(self).spec_listing(),
            ),
            final(self).report.relocated.deep_view() == relocated_of(
                missing_of(old(self).spec_locations(), old(self).spec_existing()),
                not_imported_of(old(self).spec_locations(), old(self).spec_listing()),
            ),
    {
        self.report = AnalyzerReport {
            missing: Vec::new(),
            not_imported: Vec::new(),
            duplicates: Vec::new(),
            relocated: Vec::new(),
        };
        self.check_paths();
        proof {
            assert(self.report.missing.deep_view() =~= missing_of(
                old(self).spec_locations(),
                old(self).spec_existing(),
            ));
        }
        self.check_not_imported();
        self.check_duplicates();
        self.check_relocated();
    }

    /// The missing check: appends, after any prior contents, the resolved
    /// path of every track location that resolves but does not exist.
    fn check_paths(&mut self)
        ensures
            final(self).xml == old(self).xml,
            final(self).folder_contents == old(self).folder_contents,
            final(self).existing == old(self).existing,
            final(self).report.not_imported == old(self).report.not_imported,
            final(self).report.duplicates == old(self).report.duplicates,
            final(self).report.relocated == old(self).report.relocated,
            final(self).report.missing.deep_view() == old(self).report.missing.deep_view()
                + missing_of(old(self).spec_locations(), old(self).spec_existing()),
    {
        let ghost locs = self.spec_locations();
        let ghost ex = self.spec_existing();
        let ghost m0 = self.report.missing.deep_view();
        let n = self.xml.doc.tracks.len();
        let mut i: usize = 0;
        proof {
            assert(self.report.missing.deep_view() =~= m0 + missing_of(locs.take(0), ex));
        }
        while i < n
            invariant
                n == self.xml.doc.tracks.len(),
                i <= n,
                self.xml == old(self).xml,
                self.folder_contents == old(self).folder_contents,
                self.existing == old(self).existing,
                self.report.not_imported == old(self).report.not_imported,
                self.report.duplicates == old(self).report.duplicates,
                self.report.relocated == old(self).report.relocated,
                locs == self.spec_locations(),
                ex == self.spec_existing(),
                locs.len() == n,
                m0 == old(self).report.missing.deep_view(),
                self.report.missing.deep_view() == m0 + missing_of(locs.take(i as int), ex),
            decreases n - i,
        {
            let ghost mprev = self.report.missing.deep_view();
            proof {
                lemma_missing_step(locs, ex, i as int);
                assert(self.xml.doc.tracks.deep_view()[i as int] == self.xml.doc.tracks@[i
                    as int].deep_view());
                assert(locs[i as int] == self.xml.doc.tracks@[i as int].location@);
            }
            match resolve_location(self.xml.doc.tracks[i].location.as_str()) {
                Some(p) => {
                    let ghost pv = p@;
                    proof {
                        assert(resolved_of(locs[i as int]) == Some(pv));
                    }
                    if !contains_str(&self.existing, &p) {
                        self.report.missing.push(p);
                        proof {
                            assert(self.report.missing.deep_view() =~= mprev.push(pv));
                            assert(self.report.missing.deep_view() =~= m0 + missing_of(
                                locs.take(i + 1),
                                ex,
                            ));
                        }
                    } else {
                        proof {
                            assert(self.report.missing.deep_view() =~= m0 + missing_of(
                                locs.take(i + 1),
                                ex,
                            ));
                        }
                    }
                },
                None => {
                    proof {
                        assert(self.report.missing.deep_view() =~= m0 + missing_of(
                            locs.take(i + 1),
                            ex,
                        ));
                    }
                },
            }
            i += 1;
        }
        proof {
            assert(locs.take(n as int) =~= locs);
        }
    }

    /// The not-imported check: the directory listing minus the resolved
    /// track paths.
    fn check_not_imported(&mut self)
        ensures
            final(self).xml == old(self).xml,
            final(self).folder_contents == old(self).folder_contents,
            final(self).existing == old(self).existing,
            final(self).report.missing == old(self).report.missing,
            final(self).report.duplicates == old(self).report.duplicates,
            final(self).report.relocated == old(self).report.relocated,
            final(self).report.not_imported.deep_view() == not_imported_of(
                old(self).spec_locations(),
                old(self).spec_listing(),
            ),
    {
        let ghost locs = self.spec_locations();
        let mut resolved: Vec<String> = Vec::new();
        let n = self.xml.doc.tracks.len();
        let mut i: usize = 0;
        proof {
            assert(resolved.deep_view() =~= resolved_paths(locs.take(0)));
        }
        while i < n
            invariant
                n == self.xml.doc.tracks.len(),
                i <= n,
                self.xml == old(self).xml,
                self.folder_contents == old(self).folder_contents,
                self.existing == old(self).existing,
                self.report == old(self).report,
                locs == self.spec_locations(),
                locs.len() == n,
                resolved.deep_view() == resolved_paths(locs.take(i as int)),
            decreases n - i,
        {
            let ghost rprev = resolved.deep_view();
            proof {
                lemma_resolved_step(locs, i as int);
                assert(self.xml.doc.tracks.deep_view()[i as int] == self.xml.doc.tracks@[i
                    as int].deep_view());
                assert(locs[i as int] == self.xml.doc.tracks@[i as int].location@);
            }
            match resolve_location(self.xml.doc.tracks[i].location.as_str()) {
                Some(p) => {
                    let ghost pv = p@;
                    resolved.push(p);
                    proof {
                        assert(resolved.deep_view() =~= rprev.push(pv));
                        assert(resolved.deep_view() == resolved_paths(locs.take(i + 1)));
                    }
                },
                None => {
                    proof {
                        assert(resolved.deep_view() == resolved_paths(locs.take(i + 1)));
                    }
                },
            }
            i += 1;
        }
        proof {
            assert(locs.take(n as int) =~= locs);
        }
        let diff = paths_diff(&self.folder_contents, &resolved);
        self.report.not_imported = diff;
        proof {
            assert(self.report.not_imported.deep_view() =~= not_imported_of(
                locs,
                old(self).spec_listing(),
            ));
        }
    }

    /// The duplicate check: groups same-named listing entries under each
    /// resolved track path.
    fn check_duplicates(&mut self)
        requires
            old(self).report.duplicates@.len() == 0,
        ensures
            final(self).xml == old(self).xml,
            final(self).folder_contents == old(self).folder_contents,
            final(self).existing == old(self).existing,
            final(self).report.missing == old(self).report.missing,
            final(self).report.not_imported == old(self).report.not_imported,
            final(self).report.relocated == old(self).report.relocated,
            final(self).report.duplicates.deep_view() == duplicates_of(
                old(self).spec_locations(),
                old(self).spec_listing(),
            ),
    {
        let ghost locs = self.spec_locations();
        let ghost lst = self.spec_listing();
        let n = self.xml.doc.tracks.len();
        let mut i: usize = 0;
        proof {
            assert(self.report.duplicates.deep_view() =~= duplicates_of(locs.take(0), lst));
        }
        while i < n
            invariant
                n == self.xml.doc.tracks.len(),
                i <= n,
                self.xml == old(self).xml,
                self.folder_contents == old(self).folder_contents,
                self.existing == old(self).existing,
                self.report.missing == old(self).report.missing,
                self.report.not_imported == old(self).report.not_imported,
                self.report.relocated == old(self).report.relocated,
                locs == self.spec_locations(),
                lst == self.spec_listing(),
                locs.len() == n,
                self.report.duplicates.deep_view() == duplicates_of(locs.take(i as int), lst),
            decreases n - i,
        {
            proof {
                lemma_duplicates_step(locs, lst, i as int);
                assert(self.xml.doc.tracks.deep_view()[i as int] == self.xml.doc.tracks@[i
                    as int].deep_view());
                assert(locs[i as int] == self.xml.doc.tracks@[i as int].location@);
            }
            match resolve_location(self.xml.doc.tracks[i].location.as_str()) {
                Some(p) => {
                    let ghost pv = p@;
                    proof {
                        assert(resolved_of(locs[i as int]) == Some(pv));
                    }
                    self.check_file_duplicates(p);
                    proof {
                        assert(self.report.duplicates.deep_view() == duplicates_of(
                            locs.take(i + 1),
                            lst,
                        ));
                    }
                },
                None => {
                    proof {
                        assert(self.report.duplicates.deep_view() == duplicates_of(
                            locs.take(i + 1),
                            lst,
                        ));
                    }
                },
            }
            i += 1;
        }
        proof {
            assert(locs.take(n as int) =~= locs);
        }
    }

    /// One step of the duplicate check: groups the listing entries that share
    /// `file_path`'s filename under `file_path`, unless there are none or the
    /// key is already present.
    fn check_file_duplicates(&mut self, file_path: String)
        ensures
            final(self).xml == old(self).xml,
            final(self).folder_contents == old(self).folder_contents,
            final(self).existing == old(self).existing,
            final(self).report.missing == old(self).report.missing,
            final(self).report.not_imported == old(self).report.not_imported,
            final(self).report.relocated == old(self).report.relocated,
            final(self).report.duplicates.deep_view() == ({
                let rest = old(self).report.duplicates.deep_view();
                let g = group_for(file_path@, old(self).spec_listing());
                if g.len() > 0 && !keys_of(rest).contains(file_path@) {
                    rest.push(GroupV { key: file_path@, matches: g })
                } else {
                    rest
                }
            }),
    {
        let ghost fpv = file_path@;
        let ghost lst = self.spec_listing();
        let main_file = file_name(file_path.as_str());
        let mut matches: Vec<String> = Vec::new();
        let n = self.folder_contents.len();
        let mut i: usize = 0;
        proof {
            assert(matches.deep_view() =~= group_for(fpv, lst.take(0)));
        }
        while i < n
            invariant
                n == self.folder_contents.len(),
                i <= n,
                self.xml == old(self).xml,
                self.folder_contents == old(self).folder_contents,
                self.existing == old(self).existing,
                self.report == old(self).report,
                lst == self.spec_listing(),
                lst.len() == n,
                main_file@ == basename(fpv),
                file_path@ == fpv,
                matches.deep_view() == group_for(fpv, lst.take(i as int)),
            decreases n - i,
        {
            let ghost mprev = matches.deep_view();
            let same_path = self.folder_contents[i].eq(&file_path);
            let content_file = file_name(self.folder_contents[i].as_str());
            let same_name = content_file.eq(&main_file);
            proof {
                assert(lst.take(i + 1).drop_last() =~= lst.take(i as int));
                assert(lst.take(i + 1).last() == lst[i as int]);
                assert(lst[i as int] == self.folder_contents@[i as int]@);
                reveal_with_fuel(Seq::filter, 2);
            }
            if !same_path && same_name {
                matches.push(self.folder_contents[i].clone());
                proof {
                    assert(matches.deep_view() =~= mprev.push(lst[i as int]));
                    assert(matches.deep_view() =~= group_for(fpv, lst.take(i + 1)));
                }
            } else {
                proof {
                    assert(matches.deep_view() =~= group_for(fpv, lst.take(i + 1)));
                }
            }
            i += 1;
        }
        proof {
            assert(lst.take(n as int) =~= lst);
        }
        let ghost dprev = self.report.duplicates.deep_view();
        if matches.len() > 0 && !Self::keys_contain(&self.report.duplicates, &file_path) {
            let ghost mv = matches.deep_view();
            self.report.duplicates.push(MatchGroup { key: file_path, matches });
            proof {
                assert(self.report.duplicates.deep_view() =~= dprev.push(
                    GroupV { key: fpv, matches: mv },
                ));
            }
        }
    }

    fn keys_contain(gs: &Vec<MatchGroup>, k: &String) -> (r: bool)
        ensures
            r == keys_of(gs.deep_view()).contains(k@),
    {
        let mut i: usize = 0;
        while i < gs.len()
            invariant
                i <= gs.len(),
                forall|j: int| 0 <= j < i ==> keys_of(gs.deep_view())[j] != k@,
            decreases gs.len() - i,
        {
            if gs[i].key.eq(k) {
                assert(keys_of(gs.deep_view())[i as int] == k@);
                return true;
            }
            i += 1;
        }
        false
    }

    /// The relocation check: for each missing path, groups the not-imported
    /// paths that share its filename under that filename.
    fn check_relocated(&mut self)
        requires
            old(self).report.relocated@.len() == 0,
        ensures
            final(self).xml == old(self).xml,
            final(self).folder_contents == old(self).folder_contents,
            final(self).existing == old(self).existing,
            final(self).report.missing == old(self).report.missing,
            final(self).report.not_imported == old(self).report.not_imported,
            final(self).report.duplicates == old(self).report.duplicates,
            final(self).report.relocated.deep_view() == relocated_of(
                old(self).report.missing.deep_view(),
                old(self).report.not_imported.deep_view(),
            ),
    {
        let ghost miss = self.report.missing.deep_view();
        let ghost ni = self.report.not_imported.deep_view();
        let n = self.report.missing.len();
        let mut i: usize = 0;
        proof {
            assert(self.report.relocated.deep_view() =~= relocated_of(miss.take(0), ni));
        }
        while i < n
            invariant
                n == self.report.missing.len(),
                i <= n,
                self.xml == old(self).xml,
                self.folder_contents == old(self).folder_contents,
                self.existing == old(self).existing,
                self.report.missing == old(self).report.missing,
                self.report.not_imported == old(self).report.not_imported,
                self.report.duplicates == old(self).report.duplicates,
                miss == self.report.missing.deep_view(),
                ni == self.report.not_imported.deep_view(),
                miss.len() == n,
                self.report.relocated.deep_view() == relocated_of(miss.take(i as int), ni),
            decreases n - i,
        {
            proof {
                lemma_relocated_step(miss, ni, i as int);
                assert(miss[i as int] == self.report.missing@[i as int]@);
            }
            let missing_file = file_name(self.report.missing[i].as_str());
            let mut matches: Vec<String> = Vec::new();
            let m = self.report.not_imported.len();
            let mut j: usize = 0;
            proof {
                assert(matches.deep_view() =~= reloc_matches(basename(miss[i as int]), ni.take(0)));
            }
            while j < m
                invariant
                    m == self.report.not_imported.len(),
                    j <= m,
                    i < n,
                    self.xml == old(self).xml,
                    self.folder_contents == old(self).folder_contents,
                    self.existing == old(self).existing,
                    self.report.missing == old(self).report.missing,
                    self.report.not_imported == old(self).report.not_imported,
                    self.report.duplicates == old(self).report.duplicates,
                    miss == self.report.missing.deep_view(),
                    ni == self.report.not_imported.deep_view(),
                    miss.len() == n,
                    ni.len() == m,
                    self.report.relocated.deep_view() == relocated_of(miss.take(i as int), ni),
                    missing_file@ == basename(miss[i as int]),
                    matches.deep_view() == reloc_matches(
                        basename(miss[i as int]),
                        ni.take(j as int),
                    ),
                decreases m - j,
            {
                let ghost mprev = matches.deep_view();
                let content_file = file_name(self.report.not_imported[j].as_str());
                proof {
                    assert(ni.take(j + 1).drop_last() =~= ni.take(j as int));
                    assert(ni.take(j + 1).last() == ni[j as int]);
                    assert(ni[j as int] == self.report.not_imported@[j as int]@);
                    reveal_with_fuel(Seq::filter, 2);
                }
                if content_file.eq(&missing_file) {
                    matches.push(self.report.not_imported[j].clone());
                    proof {
                        assert(matches.deep_view() =~= mprev.push(ni[j as int]));
                        assert(matches.deep_view() =~= reloc_matches(
                            basename(miss[i as int]),
                            ni.take(j + 1),
                        ));
                    }
                } else {
                    proof {
                        assert(matches.deep_view() =~= reloc_matches(
                            basename(miss[i as int]),
                            ni.take(j + 1),
                        ));
                    }
                }
                j += 1;
            }
            proof {
                assert(ni.take(m as int) =~= ni);
            }
            let ghost rprev = self.report.relocated.deep_view();
            if matches.len() > 0 && !Self::keys_contain(&self.report.relocated, &missing_file) {
                let ghost mfv = missing_file@;
                let ghost mv = matches.deep_view();
                self.report.relocated.push(MatchGroup { key: missing_file, matches });
                proof {
                    assert(self.report.relocated.deep_view() =~= rprev.push(
                        GroupV { key: mfv, matches: mv },
                    ));
                    assert(self.report.relocated.deep_view() == relocated_of(miss.take(i + 1), ni));
                }
            } else {
                proof {
                    assert(self.report.relocated.deep_view() == relocated_of(miss.take(i + 1), ni));
                }
            }
            i += 1;
        }
        proof {
            assert(miss.take(n as int) =~= miss);
        }
    }
}

} // verus!
