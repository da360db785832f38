//! The discovery engine: merges what the backends hold into one entry per
//! certificate, updates the cache through diffs, and keeps the scheduler
//! supplied with refresh tasks. Listing paths and fetching certificates is left
//! to whoever drives the engine; the results are handed in.

use vstd::prelude::*;
use vstd::string::*;
use crate::backends::{accessor_for, create_accessor, no_accessor_for, AccessorKind};
use crate::cache::{
    added_view, entries_consistent, entries_places_distinct, entry_consistent, latest, Cache,
    CacheDiff, CacheDiffView,
};
use crate::config::{BackendConfig, Config};
use crate::error::DoomsdayError;
use crate::duration::Duration;
use crate::scheduler::{outcome_error, running_record, Scheduler, SchedulerView};
use crate::storage::Accessor;
use crate::text::{concat3, str_eq};
use crate::types::{
    paths_view, strings_view, CacheObject, CacheObjectView, CertificateData, PathObject,
    PathObjectView, PopulateStats, Task, TaskInfo, TaskView,
};

verus! {

/// How many paths are fetched at a time when all backends are refreshed.
pub const POPULATE_CHUNK_SIZE: usize = 100;

/// How many paths are fetched at a time when one backend is refreshed.
pub const REFRESH_CHUNK_SIZE: usize = 50;

/// What fetching one path gave: a certificate, nothing (the path holds no
/// certificate), or an error.
#[derive(Debug)]
pub struct FetchResult {
    pub backend: String,
    pub path: String,
    pub outcome: Result<Option<CertificateData>, DoomsdayError>,
}

/// A certificate and a place where it was found.
pub struct Finding {
    pub backend: Seq<char>,
    pub path: Seq<char>,
    pub subject: Seq<char>,
    pub not_after: int,
    pub sha1: Seq<char>,
}

impl Finding {
    /// The place of the finding.
    pub open spec fn place(self) -> PathObjectView {
        PathObjectView { backend: self.backend, path: self.path }
    }

    /// The entry of a certificate that was found here and nowhere else.
    pub open spec fn entry(self) -> CacheObjectView {
        CacheObjectView {
            subject: self.subject,
            not_after: self.not_after,
            sha1: self.sha1,
            paths: seq![self.place()],
        }
    }
}

/// The finding in a fetch result, if it holds a certificate. Where
/// `as_backend` is given, it stands for the backend's name.
pub open spec fn finding_in(result: FetchResult, as_backend: Option<Seq<char>>) -> Option<Finding> {
    match result.outcome {
        Ok(Some(cert)) => Some(
            Finding {
                backend: match as_backend {
                    Some(name) => name,
                    None => result.backend@,
                },
                path: result.path@,
                subject: cert.subject@,
                not_after: cert.not_after as int,
                sha1: cert.fingerprint_sha1@,
            },
        ),
        _ => None,
    }
}

/// The findings in a sequence of fetch results, in order.
pub open spec fn findings_in(fetched: Seq<FetchResult>, as_backend: Option<Seq<char>>) -> Seq<Finding>
    decreases fetched.len(),
{
    if fetched.len() == 0 {
        Seq::empty()
    } else {
        match finding_in(fetched.last(), as_backend) {
            Some(f) => findings_in(fetched.drop_last(), as_backend).push(f),
            None => findings_in(fetched.drop_last(), as_backend),
        }
    }
}

/// The position of the entry for the fingerprint `sha1`, if there is one.
pub open spec fn entry_position(entries: Seq<CacheObjectView>, sha1: Seq<char>) -> Option<int>
    decreases entries.len(),
{
    if entries.len() == 0 {
        None
    } else {
        match entry_position(entries.drop_last(), sha1) {
            Some(i) => Some(i),
            None => if entries.last().sha1 == sha1 {
                Some(entries.len() - 1)
            } else {
                None
            },
        }
    }
}

/// The entries after one more finding: a new entry where the certificate is
/// new, one more place on its entry where it is known and the place is new,
/// and no change otherwise.
pub open spec fn absorb(entries: Seq<CacheObjectView>, f: Finding) -> Seq<CacheObjectView> {
    match entry_position(entries, f.sha1) {
        Some(i) => if entries[i].paths.contains(f.place()) {
            entries
        } else {
            entries.update(
                i,
                CacheObjectView { paths: entries[i].paths.push(f.place()), ..entries[i] },
            )
        },
        None => entries.push(f.entry()),
    }
}

/// The working map: one entry per certificate found, in the order in which
/// the certificates were first found, each with all the places where it was
/// found, in the order in which they were found.
pub open spec fn working_map(findings: Seq<Finding>) -> Seq<CacheObjectView>
    decreases findings.len(),
{
    if findings.len() == 0 {
        Seq::empty()
    } else {
        absorb(working_map(findings.drop_last()), findings.last())
    }
}

/// The entries, each under its fingerprint.
pub open spec fn keyed(entries: Seq<CacheObjectView>) -> Seq<(Seq<char>, CacheObjectView)> {
    entries.map_values(|e: CacheObjectView| (e.sha1, e))
}

/// The views of a sequence of entries.
pub open spec fn objects_view(s: Seq<CacheObject>) -> Seq<CacheObjectView> {
    s.map_values(|e: CacheObject| e@)
}

/// Whether no two entries have the same fingerprint, and each names at least
/// one place and none twice.
pub open spec fn entries_distinct(entries: Seq<CacheObjectView>) -> bool {
    &&& forall|i: int, j: int|
        0 <= i < j < entries.len() ==> (#[trigger] entries[i]).sha1 != (#[trigger] entries[j]).sha1
    &&& forall|i: int|
        0 <= i < entries.len() ==> (#[trigger] entries[i]).paths.len() >= 1
            && entries[i].paths.no_duplicates()
}

/// What `entry_position` finds is an entry for that fingerprint, and it finds
/// one where there is one.
pub proof fn lemma_entry_position(entries: Seq<CacheObjectView>, sha1: Seq<char>)
    ensures
        match entry_position(entries, sha1) {
            Some(i) => 0 <= i < entries.len() && entries[i].sha1 == sha1 && forall|j: int|
                0 <= j < i ==> (#[trigger] entries[j]).sha1 != sha1,
            None => forall|j: int| 0 <= j < entries.len() ==> (#[trigger] entries[j]).sha1 != sha1,
        },
    decreases entries.len(),
{
    if entries.len() > 0 {
        let shorter = entries.drop_last();
        lemma_entry_position(shorter, sha1);
        match entry_position(shorter, sha1) {
            Some(i) => {
                assert(shorter[i] == entries[i]);
                assert forall|j: int| 0 <= j < i implies (#[trigger] entries[j]).sha1 != sha1 by {
                    assert(shorter[j] == entries[j]);
                }
            },
            None => {
                assert forall|j: int| 0 <= j < entries.len() - 1
                    implies (#[trigger] entries[j]).sha1
                    != sha1 by {
                    assert(shorter[j] == entries[j]);
                }
            },
        }
    }
}

/// The first position where an entry for the fingerprint stands is what
/// `entry_position` finds.
pub proof fn lemma_entry_position_is(entries: Seq<CacheObjectView>, sha1: Seq<char>, i: int)
    requires
        0 <= i <= entries.len(),
        forall|j: int| 0 <= j < i ==> (#[trigger] entries[j]).sha1 != sha1,
        i < entries.len() ==> entries[i].sha1 == sha1,
    ensures
        entry_position(entries, sha1) == if i < entries.len() {
            Some(i)
        } else {
            None
        },
{
    lemma_entry_position(entries, sha1);
    match entry_position(entries, sha1) {
        Some(p) => {
            if p < i {
                assert(entries[p].sha1 != sha1);
            } else if p > i {
                assert(entries[i].sha1 != sha1);
            }
        },
        None => {
            if i < entries.len() {
                assert(entries[i].sha1 != sha1);
            }
        },
    }
}

/// One more finding keeps the entries distinct.
pub proof fn lemma_absorb_keeps_distinct(entries: Seq<CacheObjectView>, f: Finding)
    requires
        entries_distinct(entries),
    ensures
        entries_distinct(absorb(entries, f)),
{
    lemma_entry_position(entries, f.sha1);
    let after = absorb(entries, f);
    match entry_position(entries, f.sha1) {
        Some(i) => {
            if !entries[i].paths.contains(f.place()) {
                let grown = entries[i].paths.push(f.place());
                assert(grown.no_duplicates()) by {
                    assert forall|a: int, b: int|
                        0 <= a < grown.len() && 0 <= b < grown.len() && a != b implies grown[a]
                        != grown[b] by {
                        if a == grown.len() - 1 {
                            assert(entries[i].paths[b] == grown[b]);
                        } else if b == grown.len() - 1 {
                            assert(entries[i].paths[a] == grown[a]);
                        }
                    }
                }
                assert forall|a: int, b: int| 0 <= a < b < after.len()
                    implies (#[trigger] after[a]).sha1
                    != (#[trigger] after[b]).sha1 by {
                    assert(after[a].sha1 == entries[a].sha1);
                    assert(after[b].sha1 == entries[b].sha1);
                }
                assert forall|a: int| 0 <= a < after.len() implies (#[trigger] after[a]).paths.len()
                    >= 1 && after[a].paths.no_duplicates() by {
                    if a != i {
                        assert(after[a] == entries[a]);
                    }
                }
            }
        },
        None => {
            assert(f.entry().paths.no_duplicates());
            assert forall|a: int, b: int| 0 <= a < b < after.len()
                implies (#[trigger] after[a]).sha1
                != (#[trigger] after[b]).sha1 by {
                assert(after[a] == entries[a]);
                if b < entries.len() {
                    assert(after[b] == entries[b]);
                }
            }
            assert forall|a: int| 0 <= a < after.len()
                implies (#[trigger] after[a]).paths.len() >= 1
                && after[a].paths.no_duplicates() by {
                if a < entries.len() {
                    assert(after[a] == entries[a]);
                }
            }
        },
    }
}

/// In a working map no two entries have the same fingerprint, and each names
/// at least one place and none twice.
pub proof fn lemma_working_map_distinct(findings: Seq<Finding>)
    ensures
        entries_distinct(working_map(findings)),
    decreases findings.len(),
{
    if findings.len() > 0 {
        lemma_working_map_distinct(findings.drop_last());
        lemma_absorb_keeps_distinct(working_map(findings.drop_last()), findings.last());
    }
}

/// The places of a sequence of findings.
pub open spec fn places_of(findings: Seq<Finding>) -> Seq<PathObjectView> {
    findings.map_values(|f: Finding| f.place())
}

/// One certificate found at any number of distinct places gives exactly one
/// entry, and its places are those where the certificate was found, in the
/// order in which it was found there.
pub proof fn lemma_one_certificate_one_entry(findings: Seq<Finding>)
    requires
        findings.len() >= 1,
        forall|i: int| 0 <= i < findings.len()
            ==> (#[trigger] findings[i]).sha1 == findings[0].sha1,
        places_of(findings).no_duplicates(),
    ensures
        working_map(findings).len() == 1,
        working_map(findings)[0].sha1 == findings[0].sha1,
        working_map(findings)[0].subject == findings[0].subject,
        working_map(findings)[0].not_after == findings[0].not_after,
        working_map(findings)[0].paths == places_of(findings),
    decreases findings.len(),
{
    let before = findings.drop_last();
    let last = findings.last();
    if findings.len() == 1 {
        assert(before.len() == 0);
        assert(working_map(before) =~= Seq::<CacheObjectView>::empty());
        assert(working_map(findings) == seq![last.entry()]);
        assert(places_of(findings) =~= seq![last.place()]);
    } else {
        assert forall|i: int| 0 <= i < before.len() implies (#[trigger] before[i]).sha1
            == before[0].sha1 by {
            assert(before[i] == findings[i]);
            assert(before[0] == findings[0]);
        }
        assert(places_of(before) =~= places_of(findings).drop_last());
        assert(places_of(before).no_duplicates()) by {
            assert forall|a: int, b: int|
                0 <= a < places_of(before).len() && 0 <= b < places_of(before).len() && a
                    != b implies places_of(before)[a] != places_of(before)[b] by {
                assert(places_of(before)[a] == places_of(findings)[a]);
                assert(places_of(before)[b] == places_of(findings)[b]);
            }
        }
        lemma_one_certificate_one_entry(before);
        let w = working_map(before);
        assert(before[0] == findings[0]);
        assert(last.sha1 == findings[0].sha1);
        lemma_entry_position_is(w, last.sha1, 0);
        assert(!w[0].paths.contains(last.place())) by {
            if w[0].paths.contains(last.place()) {
                let i = choose|i: int| 0 <= i < w[0].paths.len() && w[0].paths[i] == last.place();
                assert(places_of(findings)[i] == places_of(before)[i]);
                assert(places_of(findings)[findings.len() - 1] == last.place());
            }
        }
        assert(places_of(findings) =~= places_of(before).push(last.place()));
    }
}

/// The working map of what was fetched, as one list of entries: one per
/// certificate, with every place where it was found. Where `as_backend` is
/// given, it stands for the backend's name in every place.
pub fn merge_results(fetched: &Vec<FetchResult>, as_backend: Option<&str>) -> (entries: Vec<
    CacheObject,
>)
    ensures
        objects_view(entries@) == working_map(findings_in(fetched@, backend_view(as_backend))),
{
    let ghost given = backend_view(as_backend);
    let mut entries: Vec<CacheObject> = Vec::new();
    let mut i: usize = 0;
    proof {
        assert(fetched@.take(0) =~= Seq::<FetchResult>::empty());
        assert(objects_view(entries@) =~= Seq::<CacheObjectView>::empty());
    }
    while i < fetched.len()
        invariant
            i <= fetched.len(),
            given == backend_view(as_backend),
            objects_view(entries@) == working_map(findings_in(fetched@.take(i as int), given)),
        decreases fetched.len() - i,
    {
        proof {
            assert(fetched@.take(i + 1).drop_last() =~= fetched@.take(i as int));
            assert(fetched@.take(i + 1).last() == fetched@[i as int]);
        }
        let result = &fetched[i];
        match &result.outcome {
            Ok(Some(cert)) => {
                let backend = match as_backend {
                    Some(name) => name,
                    None => result.backend.as_str(),
                };
                let ghost f = finding_in(*result, given).unwrap();
                proof {
                    let found = findings_in(fetched@.take(i + 1), given);
                    assert(found.drop_last() =~= findings_in(fetched@.take(i as int), given));
                    assert(found.last() == f);
                }
                absorb_finding(&mut entries, backend, result.path.as_str(), cert, Ghost(f));
            },
            _ => {},
        }
        i += 1;
    }
    proof {
        assert(fetched@.take(i as int) =~= fetched@);
    }
    entries
}

/// The characters of an optional name.
pub open spec fn backend_view(name: Option<&str>) -> Option<Seq<char>> {
    match name {
        Some(n) => Some(n@),
        None => None,
    }
}

fn has_place(paths: &Vec<PathObject>, backend: &str, path: &str) -> (r: bool)
    ensures
        r == paths_view(paths@).contains(PathObjectView { backend: backend@, path: path@ }),
{
    let ghost wanted = PathObjectView { backend: backend@, path: path@ };
    let mut i: usize = 0;
    while i < paths.len()
        invariant
            i <= paths.len(),
            wanted == (PathObjectView { backend: backend@, path: path@ }),
            forall|j: int| 0 <= j < i ==> paths_view(paths@)[j] != wanted,
        decreases paths.len() - i,
    {
        if str_eq(paths[i].backend.as_str(), backend) && str_eq(paths[i].path.as_str(), path) {
            assert(paths_view(paths@)[i as int] == wanted);
            return true;
        }
        i += 1;
    }
    false
}

fn absorb_finding(
    entries: &mut Vec<CacheObject>,
    backend: &str,
    path: &str,
    cert: &CertificateData,
    Ghost(f): Ghost<Finding>,
)
    requires
        f == (Finding {
            backend: backend@,
            path: path@,
            subject: cert.subject@,
            not_after: cert.not_after as int,
            sha1: cert.fingerprint_sha1@,
        }),
    ensures
        objects_view(final(entries)@) == absorb(objects_view(old(entries)@), f),
{
    let ghost before = objects_view(entries@);
    let mut i: usize = 0;
    while i < entries.len()
        invariant
            i <= entries.len(),
            entries@ == old(entries)@,
            forall|j: int| 0 <= j < i ==> (#[trigger] before[j]).sha1 != f.sha1,
            before == objects_view(entries@),
            f.sha1 == cert.fingerprint_sha1@,
        ensures
            i < entries.len() ==> before[i as int].sha1 == f.sha1,
        decreases entries.len() - i,
    {
        if str_eq(entries[i].sha1.as_str(), cert.fingerprint_sha1.as_str()) {
            assert(before[i as int].sha1 == f.sha1);
            break ;
        }
        i += 1;
    }
    proof {
        lemma_entry_position_is(before, f.sha1, i as int);
    }
    let place = PathObject { backend: String::from_str(backend), path: String::from_str(path) };
    if i < entries.len() {
        if !has_place(&entries[i].paths, backend, path) {
            proof {
                assert(before[i as int].paths == paths_view(entries@[i as int].paths@));
            }
            let ghost old_entry = entries@[i as int];
            entries[i].paths.push(place);
            proof {
                let new_entry = entries@[i as int];
                assert(paths_view(new_entry.paths@) =~= paths_view(old_entry.paths@).push(place@));
                assert(objects_view(entries@) =~= before.update(
                    i as int,
                    CacheObjectView {
                        paths: before[i as int].paths.push(f.place()),
                        ..before[i as int]
                    },
                ));
            }
        }
    } else {
        let mut paths: Vec<PathObject> = Vec::new();
        paths.push(place);
        let entry = CacheObject {
            subject: cert.subject.clone(),
            not_after: cert.not_after,
            sha1: cert.fingerprint_sha1.clone(),
            paths,
        };
        proof {
            assert(paths_view(entry.paths@) =~= seq![f.place()]);
            assert(objects_view(entries@.push(entry)) =~= before.push(f.entry()));
        }
        entries.push(entry);
    }
}

/// Whether an entry names a place in the backend `backend`.
pub open spec fn touches(entry: CacheObjectView, backend: Seq<char>) -> bool {
    exists|i: int| 0 <= i < entry.paths.len() && (#[trigger] entry.paths[i]).backend == backend
}

/// The fingerprints that a refresh of `backend` removes: those of the entries
/// that name a place in it and are not among the entries just found.
pub open spec fn stale_keys(
    cache: Map<Seq<char>, CacheObjectView>,
    backend: Seq<char>,
    entries: Seq<CacheObjectView>,
) -> Set<Seq<char>> {
    Set::new(
        |k: Seq<char>|
            cache.contains_key(k) && touches(cache[k], backend) && entry_position(entries, k)
                is None,
    )
}

/// The cache after all backends were refreshed and `entries` were found:
/// each entry found is put in under its fingerprint, replacing what was there;
/// everything else stays.
pub open spec fn populated(cache: Map<Seq<char>, CacheObjectView>, entries: Seq<CacheObjectView>) -> Map<
    Seq<char>,
    CacheObjectView,
> {
    (CacheDiffView { added: keyed(entries), removed: Seq::empty() }).apply(cache)
}

/// The cache after `backend` was refreshed and `entries` were found in it:
/// each entry found is put in under its fingerprint, replacing what was there;
/// the stale entries are gone; everything else stays.
pub open spec fn refreshed(
    cache: Map<Seq<char>, CacheObjectView>,
    backend: Seq<char>,
    entries: Seq<CacheObjectView>,
) -> Map<Seq<char>, CacheObjectView> {
    Map::new(
        |k: Seq<char>|
            latest(keyed(entries), k) is Some || (cache.contains_key(k) && !stale_keys(
                cache,
                backend,
                entries,
            ).contains(k)),
        |k: Seq<char>|
            match latest(keyed(entries), k) {
                Some(v) => v,
                None => cache[k],
            },
    )
}

/// One certificate found at any number of distinct places, put into an empty
/// cache, is its only entry, and the entry names exactly those places.
pub proof fn lemma_one_certificate_one_cache_entry(findings: Seq<Finding>)
    requires
        findings.len() >= 1,
        forall|i: int| 0 <= i < findings.len()
            ==> (#[trigger] findings[i]).sha1 == findings[0].sha1,
        places_of(findings).no_duplicates(),
    ensures
        populated(Map::empty(), working_map(findings)).dom() == set![findings[0].sha1],
        populated(Map::empty(), working_map(findings))[findings[0].sha1].paths == places_of(
            findings,
        ),
        populated(Map::empty(), working_map(findings))[findings[0].sha1].sha1 == findings[0].sha1,
{
    lemma_one_certificate_one_entry(findings);
    let w = working_map(findings);
    let added = keyed(w);
    assert(added.len() == 1);
    assert(added[0] == (w[0].sha1, w[0]));
    assert(added.drop_last().len() == 0);
    let after = populated(Map::empty(), w);
    assert forall|k: Seq<char>| after.dom().contains(k) <==> k == findings[0].sha1 by {
        assert(latest(added.drop_last(), k) is None);
        assert(added.last() == added[0]);
    }
    assert(after.dom() =~= set![findings[0].sha1]);
    assert(latest(added.drop_last(), findings[0].sha1) is None);
    assert(added.last() == added[0]);
}

/// Distinct entries, each under its fingerprint, make a consistent diff.
pub proof fn lemma_keyed_consistent(entries: Seq<CacheObjectView>, removed: Seq<Seq<char>>)
    requires
        entries_distinct(entries),
    ensures
        (CacheDiffView { added: keyed(entries), removed }).consistent(),
        (CacheDiffView { added: keyed(entries), removed }).places_distinct(),
{
    let d = CacheDiffView { added: keyed(entries), removed };
    assert forall|i: int| 0 <= i < d.added.len()
        implies (#[trigger] d.added[i]).1.paths.no_duplicates() by {
        assert(d.added[i] == (entries[i].sha1, entries[i]));
    }
    assert forall|i: int| 0 <= i < d.added.len() implies entry_consistent(
        (#[trigger] d.added[i]).0,
        d.added[i].1,
    ) by {
        assert(d.added[i] == (entries[i].sha1, entries[i]));
    }
}

/// The entries, each paired with its fingerprint.
pub fn key_entries(entries: &Vec<CacheObject>) -> (r: Vec<(String, CacheObject)>)
    ensures
        added_view(r@) == keyed(objects_view(entries@)),
{
    let mut r: Vec<(String, CacheObject)> = Vec::new();
    let mut i: usize = 0;
    while i < entries.len()
        invariant
            i <= entries.len(),
            r.len() == i,
            forall|j: int|
                0 <= j < i ==> (#[trigger] r@[j]).0@ == entries@[j].sha1@ && r@[j].1@
                    == entries@[j]@,
        decreases entries.len() - i,
    {
        r.push((entries[i].sha1.clone(), entries[i].clone()));
        i += 1;
    }
    proof {
        assert(added_view(r@) =~= keyed(objects_view(entries@)));
    }
    r
}

fn names_backend(paths: &Vec<PathObject>, backend: &str) -> (r: bool)
    ensures
        r == exists|i: int|
            0 <= i < paths@.len() && (#[trigger] paths_view(paths@)[i]).backend == backend@,
{
    let mut i: usize = 0;
    while i < paths.len()
        invariant
            i <= paths.len(),
            forall|j: int| 0 <= j < i ==> (#[trigger] paths_view(paths@)[j]).backend != backend@,
        decreases paths.len() - i,
    {
        if str_eq(paths[i].backend.as_str(), backend) {
            assert(paths_view(paths@)[i as int].backend == backend@);
            return true;
        }
        i += 1;
    }
    false
}

fn has_entry(entries: &Vec<CacheObject>, sha1: &str) -> (r: bool)
    ensures
        r == (entry_position(objects_view(entries@), sha1@) is Some),
{
    let ghost views = objects_view(entries@);
    let mut i: usize = 0;
    while i < entries.len()
        invariant
            i <= entries.len(),
            views == objects_view(entries@),
            forall|j: int| 0 <= j < i ==> (#[trigger] views[j]).sha1 != sha1@,
        decreases entries.len() - i,
    {
        if str_eq(entries[i].sha1.as_str(), sha1) {
            proof {
                assert(views[i as int].sha1 == sha1@);
                lemma_entry_position_is(views, sha1@, i as int);
            }
            return true;
        }
        i += 1;
    }
    proof {
        lemma_entry_position_is(views, sha1@, i as int);
    }
    false
}

/// The fingerprints of the entries of `cache` that name a place in `backend`
/// and are not among `entries`.
pub fn find_stale(cache: &Cache, backend: &str, entries: &Vec<CacheObject>) -> (removed: Vec<String>)
    ensures
        strings_view(removed@).to_set() == stale_keys(cache@, backend@, objects_view(entries@)),
{
    let known = cache.entries();
    let ghost keys = crate::cache::listed_keys(known@);
    let ghost vals = crate::cache::listed_values(known@);
    let ghost found = objects_view(entries@);
    let mut removed: Vec<String> = Vec::new();
    let mut i: usize = 0;
    while i < known.len()
        invariant
            i <= known.len(),
            keys == crate::cache::listed_keys(known@),
            vals == crate::cache::listed_values(known@),
            found == objects_view(entries@),
            crate::entries::lists_map(keys, vals, cache@),
            forall|k: Seq<char>|
                strings_view(removed@).contains(k) <==> exists|j: int|
                    0 <= j < i && #[trigger] keys[j] == k && touches(vals[j], backend@)
                        && entry_position(found, k) is None,
        decreases known.len() - i,
    {
        let key = &known[i].0;
        let object = &known[i].1;
        proof {
            assert(keys[i as int] == key@);
            assert(vals[i as int] == object@);
            assert(vals[i as int].paths == paths_view(object.paths@));
        }
        if names_backend(&object.paths, backend) && !has_entry(entries, key.as_str()) {
            let ghost before = strings_view(removed@);
            removed.push(key.clone());
            proof {
                let after = strings_view(removed@);
                assert(after =~= before.push(key@));
                assert forall|k: Seq<char>| after.contains(k) <==> exists|j: int|
                    0 <= j < i + 1 && #[trigger] keys[j] == k && touches(vals[j], backend@)
                        && entry_position(found, k) is None by {
                    if after.contains(k) {
                        let p = choose|p: int| 0 <= p < after.len() && after[p] == k;
                        if p < before.len() {
                            assert(before[p] == k);
                            assert(before.contains(k));
                        } else {
                            assert(keys[i as int] == k);
                        }
                    }
                    if exists|j: int|
                        0 <= j < i + 1 && #[trigger] keys[j] == k && touches(vals[j], backend@)
                            && entry_position(found, k) is None {
                        let j = choose|j: int|
                            0 <= j < i + 1 && #[trigger] keys[j] == k && touches(vals[j], backend@)
                                && entry_position(found, k) is None;
                        if j < i {
                            assert(before.contains(k));
                            let p = choose|p: int| 0 <= p < before.len() && before[p] == k;
                            assert(after[p] == k);
                        } else {
                            assert(after[before.len() as int] == k);
                        }
                    }
                }
            }
        } else {
            proof {
                assert forall|k: Seq<char>| strings_view(removed@).contains(k) <==> exists|j: int|
                    0 <= j < i + 1 && #[trigger] keys[j] == k && touches(vals[j], backend@)
                        && entry_position(found, k) is None by {
                    if exists|j: int|
                        0 <= j < i + 1 && #[trigger] keys[j] == k && touches(vals[j], backend@)
                            && entry_position(found, k) is None {
                        let j = choose|j: int|
                            0 <= j < i + 1 && #[trigger] keys[j] == k && touches(vals[j], backend@)
                                && entry_position(found, k) is None;
                        assert(j < i);
                    }
                }
            }
        }
        i += 1;
    }
    proof {
        let stale = stale_keys(cache@, backend@, found);
        assert forall|k: Seq<char>| strings_view(removed@).to_set().contains(k) <==> stale.contains(
            k,
        ) by {
            if strings_view(removed@).contains(k) {
                let j = choose|j: int|
                    0 <= j < i && #[trigger] keys[j] == k && touches(vals[j], backend@)
                        && entry_position(found, k) is None;
                assert(cache@.contains_key(keys[j]) && cache@[keys[j]] == vals[j]);
            }
            if stale.contains(k) {
                assert(cache@.contains_key(k));
                assert(keys.contains(k));
                let j = choose|j: int| 0 <= j < keys.len() && keys[j] == k;
                assert(cache@.contains_key(keys[j]) && cache@[keys[j]] == vals[j]);
            }
        }
        assert(strings_view(removed@).to_set() =~= stale);
    }
    removed
}

/// The names of a sequence of backends.
pub open spec fn names_of(backends: Seq<BackendConfig>) -> Seq<Seq<char>> {
    backends.map_values(|b: BackendConfig| b.name@)
}

/// The state of a scheduler after a refresh of each of the first `n` backends
/// named was scheduled, in order, under the ids and at the instants given.
pub open spec fn scheduled_first(
    s: SchedulerView,
    names: Seq<Seq<char>>,
    ids: Seq<Seq<char>>,
    times: Seq<int>,
    n: int,
) -> SchedulerView
    decreases n,
{
    if n <= 0 {
        s
    } else {
        scheduled_first(s, names, ids, times, n - 1).scheduled(
            TaskView::RefreshBackend { backend_name: names[n - 1] },
            ids[n - 1],
            times[n - 1],
        )
    }
}

/// Whether `after` is `before` with a refresh of each backend named
/// scheduled, in order, under some ids and at some instants; or, where the
/// scheduler has been shut down, nothing changed.
pub open spec fn refreshes_scheduled(
    before: SchedulerView,
    after: SchedulerView,
    names: Seq<Seq<char>>,
) -> bool {
    if before.shut_down {
        after == before
    } else {
        exists|ids: Seq<Seq<char>>, times: Seq<int>|
            ids.len() == names.len() && times.len() == names.len() && after
                == #[trigger] scheduled_first(before, names, ids, times, names.len() as int)
    }
}

/// What was scheduled for the first `n` backends does not depend on the ids
/// and instants of later ones.
pub proof fn lemma_scheduled_first_prefix(
    s: SchedulerView,
    names: Seq<Seq<char>>,
    ids: Seq<Seq<char>>,
    times: Seq<int>,
    more_ids: Seq<Seq<char>>,
    more_times: Seq<int>,
    n: int,
)
    requires
        0 <= n <= ids.len() <= more_ids.len(),
        n <= times.len() <= more_times.len(),
        forall|i: int| 0 <= i < n ==> ids[i] == more_ids[i] && times[i] == more_times[i],
    ensures
        scheduled_first(s, names, ids, times, n) == scheduled_first(
            s,
            names,
            more_ids,
            more_times,
            n,
        ),
        scheduled_first(s, names, ids, times, n).shut_down == s.shut_down,
    decreases n,
{
    if n > 0 {
        lemma_scheduled_first_prefix(s, names, ids, times, more_ids, more_times, n - 1);
    }
}

/// The minutes of an interval in seconds, or as many seconds as there can be
/// where that would be more.
pub open spec fn interval_seconds(minutes: u64) -> u64 {
    if minutes * 60 > u64::MAX {
        u64::MAX
    } else {
        (minutes * 60) as u64
    }
}

/// A refresh to repeat: which backend, and how often.
#[derive(Debug)]
pub struct PeriodicRefresh {
    pub backend_name: String,
    pub interval_seconds: u64,
}

/// Whether a backend is refreshed periodically: it has an interval, and the
/// interval is not zero.
pub open spec fn is_periodic(b: BackendConfig) -> bool {
    b.refresh_interval matches Some(m) && m > 0
}

/// The periodic refreshes of the first `n` backends, in order, each as the
/// backend's name and its interval in seconds.
pub open spec fn periodic_refreshes(backends: Seq<BackendConfig>, n: int) -> Seq<(Seq<char>, u64)>
    decreases n,
{
    if n <= 0 {
        Seq::empty()
    } else if is_periodic(backends[n - 1]) {
        periodic_refreshes(backends, n - 1).push(
            (backends[n - 1].name@, interval_seconds(backends[n - 1].refresh_interval.unwrap())),
        )
    } else {
        periodic_refreshes(backends, n - 1)
    }
}

/// The views of a sequence of periodic refreshes.
pub open spec fn periodic_view(s: Seq<PeriodicRefresh>) -> Seq<(Seq<char>, u64)> {
    s.map_values(|p: PeriodicRefresh| (p.backend_name@, p.interval_seconds))
}

/// Whether each adapter is the one that the backend at its position
/// describes.
pub open spec fn accessors_for(accessors: Seq<AccessorKind>, backends: Seq<BackendConfig>) -> bool {
    &&& accessors.len() == backends.len()
    &&& forall|i: int|
        0 <= i < accessors.len() ==> accessor_for(#[trigger] accessors[i], backends[i])
            && accessors[i].spec_name() == backends[i].name@
}

/// Whether `e` says why the first backend that describes no adapter does not.
pub open spec fn no_accessors_for(e: DoomsdayError, backends: Seq<BackendConfig>) -> bool {
    exists|i: int|
        0 <= i < backends.len() && no_accessor_for(e, #[trigger] backends[i]) && forall|j: int|
            0 <= j < i ==> describes_accessor(#[trigger] backends[j])
}

/// Whether the configuration of a backend describes an adapter.
pub open spec fn describes_accessor(config: BackendConfig) -> bool {
    exists|a: AccessorKind| accessor_for(a, config)
}

/// The adapters of all backends, in order; the error of the first backend
/// that describes none.
pub fn create_accessors(backends: &Vec<BackendConfig>) -> (r: Result<
    Vec<AccessorKind>,
    DoomsdayError,
>)
    ensures
        match r {
            Ok(accessors) => accessors_for(accessors@, backends@),
            Err(e) => e is Config && no_accessors_for(e, backends@),
        },
{
    let mut accessors: Vec<AccessorKind> = Vec::new();
    let mut i: usize = 0;
    while i < backends.len()
        invariant
            i <= backends.len(),
            accessors.len() == i,
            forall|j: int|
                0 <= j < i ==> accessor_for(#[trigger] accessors@[j], backends@[j])
                    && accessors@[j].spec_name() == backends@[j].name@,
        decreases backends.len() - i,
    {
        match create_accessor(&backends[i]) {
            Ok(a) => {
                accessors.push(a);
            },
            Err(e) => {
                proof {
                    assert forall|j: int| 0 <= j < i implies describes_accessor(
                        #[trigger] backends@[j],
                    ) by {
                        assert(accessor_for(accessors@[j], backends@[j]));
                    }
                    assert(no_accessor_for(e, backends@[i as int]));
                }
                return Err(e);
            },
        }
        i += 1;
    }
    Ok(accessors)
}

/// The engine: the configuration, the adapters it describes, the cache and
/// the scheduler.
pub struct Core {
    config: Config,
    cache: Cache,
    accessors: Vec<AccessorKind>,
    scheduler: Scheduler,
}

impl Core {
    /// The configuration in force.
    pub closed spec fn config(&self) -> Config {
        self.config
    }

    /// The cache.
    pub closed spec fn cache(&self) -> Cache {
        self.cache
    }

    /// The adapters, one per configured backend, in order.
    pub closed spec fn accessors(&self) -> Seq<AccessorKind> {
        self.accessors@
    }

    /// The scheduler.
    pub closed spec fn scheduler(&self) -> Scheduler {
        self.scheduler
    }

    /// What every operation keeps: the scheduler is well formed, and the
    /// adapters are those that the configuration describes.
    pub open spec fn wf(&self) -> bool {
        &&& self.scheduler().wf()
        &&& accessors_for(self.accessors(), self.config().backends@)
    }

    /// Whether a backend named `name` is configured.
    pub open spec fn knows(&self, name: Seq<char>) -> bool {
        names_of(self.config().backends@).contains(name)
    }

    /// An engine for `config`, with an empty cache and a refresh of every
    /// backend scheduled. Refused with the error of the first backend that
    /// describes no adapter.
    pub fn new(config: Config) -> (r: Result<Self, DoomsdayError>)
        ensures
            match r {
                Ok(core) => core.wf() && core.config() == config && core.cache()@
                    == crate::cache::no_entries() && exists|fresh: SchedulerView|
                    fresh.wf() && fresh.tasks == crate::scheduler::no_tasks() && fresh.queue.len()
                        == 0 && fresh.in_flight.len() == 0 && fresh.max_workers == 4
                        && !fresh.shut_down && #[trigger] refreshes_scheduled(
                        fresh,
                        core.scheduler()@,
                        names_of(config.backends@),
                    ),
                Err(e) => e is Config && no_accessors_for(e, config.backends@),
            },
    {
        let accessors = match create_accessors(&config.backends) {
            Ok(a) => a,
            Err(e) => {
                return Err(e);
            },
        };
        let mut core = Core { config, cache: Cache::new(), accessors, scheduler: Scheduler::default() };
        let ghost fresh = core.scheduler@;
        core.schedule_refresh_tasks();
        proof {
            assert(refreshes_scheduled(fresh, core.scheduler()@, names_of(config.backends@)));
        }
        Ok(core)
    }

    /// Whether a backend named `name` is configured.
    pub fn has_backend(&self, name: &str) -> (r: bool)
        ensures
            r == self.knows(name@),
    {
        let ghost names = names_of(self.config.backends@);
        let mut i: usize = 0;
        while i < self.config.backends.len()
            invariant
                i <= self.config.backends.len(),
                names == names_of(self.config.backends@),
                forall|j: int| 0 <= j < i ==> names[j] != name@,
            decreases self.config.backends.len() - i,
        {
            if str_eq(self.config.backends[i].name.as_str(), name) {
                assert(names[i as int] == name@);
                return true;
            }
            i += 1;
        }
        false
    }

    /// The adapter of the backend named `name`: the last one configured under
    /// that name.
    pub fn find_accessor(&self, name: &str) -> (r: Option<&AccessorKind>)
        requires
            self.wf(),
        ensures
            match r {
                Some(a) => self.knows(name@) && a.spec_name() == name@ && exists|i: int|
                    0 <= i < self.accessors().len() && #[trigger] self.accessors()[i] == *a
                        && forall|j: int|
                        i < j < self.accessors().len() ==> names_of(
                            self.config().backends@,
                        )[j] != name@,
                None => !self.knows(name@),
            },
    {
        let ghost names = names_of(self.config.backends@);
        let mut i: usize = self.accessors.len();
        while i > 0
            invariant
                i <= self.accessors.len(),
                self.wf(),
                names == names_of(self.config.backends@),
                forall|j: int| i <= j < names.len() ==> names[j] != name@,
            decreases i,
        {
            i -= 1;
            if str_eq(self.accessors[i].name(), name) {
                assert(names[i as int] == name@);
                assert(self.accessors()[i as int] == self.accessors@[i as int]);
                return Some(&self.accessors[i]);
            }
        }
        None
    }

    /// Takes in what fetching every path of every backend gave, which took
    /// `duration_ms` milliseconds: each certificate found is put in the cache
    /// under its fingerprint, with all the places where it was found, replacing
    /// what was there; nothing is removed. Fetches that gave nothing or failed
    /// are passed over. Never fails.
    pub fn populate_cache(&mut self, fetched: &Vec<FetchResult>, duration_ms: u64) -> (r: Result<
        PopulateStats,
        DoomsdayError,
    >)
        ensures
            r matches Ok(stats) && stats.num_certs == working_map(
                findings_in(fetched@, None),
            ).len() && stats.num_paths == fetched@.len() && stats.duration_ms == duration_ms,
            final(self).cache()@ == populated(
                old(self).cache()@,
                working_map(findings_in(fetched@, None)),
            ),
            entries_consistent(old(self).cache()@) ==> entries_consistent(final(self).cache()@),
            entries_places_distinct(old(self).cache()@) ==> entries_places_distinct(
                final(self).cache()@,
            ),
            final(self).config() == old(self).config(),
            final(self).accessors() == old(self).accessors(),
            final(self).scheduler() == old(self).scheduler(),
    {
        let entries = merge_results(fetched, None);
        let num_certs = entries.len();
        let diff = CacheDiff { added: key_entries(&entries), removed: Vec::new() };
        proof {
            assert(strings_view(diff.removed@) =~= Seq::<Seq<char>>::empty());
            lemma_working_map_distinct(findings_in(fetched@, None));
            lemma_keyed_consistent(objects_view(entries@), Seq::empty());
        }
        match self.cache.update_from_diff(diff) {
            Ok(_) => {},
            Err(e) => {
                return Err(e);
            },
        }
        Ok(PopulateStats { num_certs, num_paths: fetched.len(), duration_ms })
    }

    /// Takes in what fetching every path of the backend `backend_name` gave,
    /// which took `duration_ms` milliseconds: each certificate found is put in
    /// the cache under its fingerprint, with all the places where it was found
    /// in this backend, replacing what was there; every entry that names a place
    /// in this backend and was not found again is removed. Refused, with nothing
    /// changed, where no backend of that name is configured.
    pub fn refresh_backend(
        &mut self,
        backend_name: &str,
        fetched: &Vec<FetchResult>,
        duration_ms: u64,
    ) -> (r: Result<PopulateStats, DoomsdayError>)
        ensures
            match r {
                Ok(stats) => old(self).knows(backend_name@) && stats.num_certs == working_map(
                    findings_in(fetched@, Some(backend_name@)),
                ).len() && stats.num_paths == fetched@.len() && stats.duration_ms == duration_ms
                    && final(self).cache()@ == refreshed(
                    old(self).cache()@,
                    backend_name@,
                    working_map(findings_in(fetched@, Some(backend_name@))),
                ),
                Err(e) => e matches DoomsdayError::NotFound(m) && m@ == "Backend "@ + backend_name@
                    + " not found"@ && !old(self).knows(backend_name@) && final(self).cache()
                    == old(self).cache(),
            },
            entries_consistent(old(self).cache()@) ==> entries_consistent(final(self).cache()@),
            entries_places_distinct(old(self).cache()@) ==> entries_places_distinct(
                final(self).cache()@,
            ),
            final(self).config() == old(self).config(),
            final(self).accessors() == old(self).accessors(),
            final(self).scheduler() == old(self).scheduler(),
    {
        if !self.has_backend(backend_name) {
            let msg = concat3("Backend ", backend_name, " not found");
            return Err(DoomsdayError::not_found(msg.as_str()));
        }
        let entries = merge_results(fetched, Some(backend_name));
        let num_certs = entries.len();
        let removed = find_stale(&self.cache, backend_name, &entries);
        let diff = CacheDiff { added: key_entries(&entries), removed };
        proof {
            let found = working_map(findings_in(fetched@, Some(backend_name@)));
            lemma_working_map_distinct(findings_in(fetched@, Some(backend_name@)));
            lemma_keyed_consistent(found, diff@.removed);
            let stale = stale_keys(self.cache@, backend_name@, found);
            assert forall|k: Seq<char>| diff@.removed.contains(k) <==> stale.contains(k) by {
                assert(diff@.removed.to_set().contains(k) <==> diff@.removed.contains(k));
            }
            assert(diff@.apply(self.cache@) =~= refreshed(self.cache@, backend_name@, found));
        }
        match self.cache.update_from_diff(diff) {
            Ok(_) => {},
            Err(e) => {
                return Err(e);
            },
        }
        Ok(PopulateStats { num_certs, num_paths: fetched.len(), duration_ms })
    }

    pub fn get_cache(&self) -> (r: &Cache)
        ensures
            *r == self.cache(),
    {
        &self.cache
    }

    pub fn get_scheduler(&self) -> (r: &Scheduler)
        ensures
            *r == self.scheduler(),
    {
        &self.scheduler
    }

    pub fn get_config(&self) -> (r: &Config)
        ensures
            *r == self.config(),
    {
        &self.config
    }

    /// Schedules a refresh of every configured backend, in order. After
    /// shutdown nothing is scheduled.
    pub fn schedule_refresh_tasks(&mut self)
        requires
            old(self).scheduler().wf(),
        ensures
            final(self).scheduler().wf(),
            refreshes_scheduled(
                old(self).scheduler()@,
                final(self).scheduler()@,
                names_of(old(self).config().backends@),
            ),
            final(self).config() == old(self).config(),
            final(self).accessors() == old(self).accessors(),
            final(self).cache() == old(self).cache(),
    {
        let ghost before = self.scheduler@;
        let ghost names = names_of(self.config.backends@);
        let ghost mut ids: Seq<Seq<char>> = Seq::empty();
        let ghost mut times: Seq<int> = Seq::empty();
        let mut i: usize = 0;
        while i < self.config.backends.len()
            invariant
                i <= self.config.backends.len(),
                self.config == old(self).config,
                self.accessors == old(self).accessors,
                self.cache == old(self).cache,
                names == names_of(self.config.backends@),
                self.scheduler.wf(),
                before == old(self).scheduler@,
                ids.len() == i,
                times.len() == i,
                if before.shut_down {
                    self.scheduler@ == before
                } else {
                    self.scheduler@ == scheduled_first(before, names, ids, times, i as int)
                },
            decreases self.config.backends.len() - i,
        {
            let task = Task::RefreshBackend { backend_name: self.config.backends[i].name.clone() };
            let ghost so_far = self.scheduler@;
            proof {
                lemma_scheduled_first_prefix(before, names, ids, times, ids, times, i as int);
            }
            match self.scheduler.schedule_task(task) {
                Ok(id) => {
                    proof {
                        let now = choose|now: i64|
                            self.scheduler@ == #[trigger] so_far.scheduled(
                                task@,
                                id@,
                                now as int,
                            );
                        let more_ids = ids.push(id@);
                        let more_times = times.push(now as int);
                        lemma_scheduled_first_prefix(
                            before,
                            names,
                            ids,
                            times,
                            more_ids,
                            more_times,
                            i as int,
                        );
                        assert(names[i as int] == self.config.backends@[i as int].name@);
                        ids = more_ids;
                        times = more_times;
                    }
                },
                Err(_) => {
                    proof {
                        ids = ids.push(Seq::empty());
                        times = times.push(0);
                    }
                },
            }
            i += 1;
        }
        proof {
            if !before.shut_down {
                assert(self.scheduler@ == scheduled_first(
                    before,
                    names,
                    ids,
                    times,
                    names.len() as int,
                ));
            }
        }
    }

    /// The periodic refreshes to set up: one for every backend that has a
    /// refresh interval other than zero, with the interval in seconds.
    pub fn schedule_periodic_tasks(&self) -> (r: Vec<PeriodicRefresh>)
        ensures
            periodic_view(r@) == periodic_refreshes(
                self.config().backends@,
                self.config().backends@.len() as int,
            ),
    {
        let mut out: Vec<PeriodicRefresh> = Vec::new();
        let mut i: usize = 0;
        proof {
            assert(periodic_view(out@) =~= periodic_refreshes(self.config.backends@, 0));
        }
        while i < self.config.backends.len()
            invariant
                i <= self.config.backends.len(),
                periodic_view(out@) == periodic_refreshes(self.config.backends@, i as int),
            decreases self.config.backends.len() - i,
        {
            let backend = &self.config.backends[i];
            match backend.refresh_interval {
                Some(minutes) => {
                    if minutes > 0 {
                        let seconds: u64 = if minutes > u64::MAX / 60 {
                            u64::MAX
                        } else {
                            minutes * 60
                        };
                        let item = PeriodicRefresh {
                            backend_name: backend.name.clone(),
                            interval_seconds: seconds,
                        };
                        proof {
                            assert(periodic_view(out@.push(item)) =~= periodic_view(out@).push(
                                (item.backend_name@, item.interval_seconds),
                            ));
                        }
                        out.push(item);
                    }
                },
                None => {},
            }
            i += 1;
        }
        out
    }

    /// Puts `new_config` in force: checks it, makes the adapters it describes,
    /// replaces configuration and adapters together, and schedules a refresh of
    /// every backend. Refused, with nothing changed, where the configuration is
    /// invalid or one of its backends describes no adapter.
    pub fn update_config(&mut self, new_config: Config) -> (r: Result<(), DoomsdayError>)
        requires
            old(self).wf(),
        ensures
            match r {
                Ok(_) => new_config.fault() is None && final(self).wf() && final(self).config()
                    == new_config && refreshes_scheduled(
                    old(self).scheduler()@,
                    final(self).scheduler()@,
                    names_of(new_config.backends@),
                ),
                Err(e) => e matches DoomsdayError::Config(m) && (new_config.fault() == Some(m@) || (
                new_config.fault() is None && no_accessors_for(e, new_config.backends@)))
                    && final(self).config() == old(self).config()
                        && final(self).accessors() == old(self).accessors()
                        && final(self).scheduler() == old(self).scheduler(),
            },
            final(self).cache() == old(self).cache(),
    {
        match new_config.validate() {
            Ok(_) => {},
            Err(e) => {
                return Err(e);
            },
        }
        let accessors = match create_accessors(&new_config.backends) {
            Ok(a) => a,
            Err(e) => {
                return Err(e);
            },
        };
        self.config = new_config;
        self.accessors = accessors;
        self.schedule_refresh_tasks();
        Ok(())
    }

    /// Schedules `task`. Refused after shutdown.
    pub fn schedule_task(&mut self, task: Task) -> (r: Result<String, DoomsdayError>)
        requires
            old(self).wf(),
        ensures
            final(self).wf(),
            match r {
                Ok(id) => !old(self).scheduler()@.shut_down && exists|now: i64|
                    final(self).scheduler()@ == #[trigger] old(self).scheduler()@.scheduled(
                        task@,
                        id@,
                        now as int,
                    ),
                Err(e) => e is Scheduler && old(self).scheduler()@.shut_down
                    && final(self).scheduler()@ == old(self).scheduler()@,
            },
            final(self).config() == old(self).config(),
            final(self).accessors() == old(self).accessors(),
            final(self).cache() == old(self).cache(),
    {
        self.scheduler.schedule_task(task)
    }

    /// Starts the oldest waiting task, if one can be started, and hands it
    /// out to be run.
    pub fn next_task(&mut self) -> (r: Option<TaskInfo>)
        requires
            old(self).wf(),
        ensures
            final(self).wf(),
            match r {
                Some(t) => old(self).scheduler()@.can_start() && exists|now: i64|
                    final(self).scheduler()@ == #[trigger] old(self).scheduler()@.started(
                        now as int,
                    ) && t@ == running_record(old(self).scheduler()@.queue[0], now as int),
                None => !old(self).scheduler()@.can_start()
                    && final(self).scheduler()@ == old(self).scheduler()@,
            },
            final(self).config() == old(self).config(),
            final(self).accessors() == old(self).accessors(),
            final(self).cache() == old(self).cache(),
    {
        self.scheduler.next_task()
    }

    /// Records how the task that was handed out with record `info` ended.
    pub fn complete_task(&mut self, info: TaskInfo, outcome: Result<(), String>) -> (r: Result<
        (),
        DoomsdayError,
    >)
        requires
            old(self).wf(),
        ensures
            final(self).wf(),
            match r {
                Ok(_) => old(self).scheduler()@.in_flight.contains(info.id@) && exists|now: i64|
                    final(self).scheduler()@ == #[trigger] old(self).scheduler()@.ended(
                        info.id@,
                        outcome_error(outcome),
                        now as int,
                    ),
                Err(e) => e is Scheduler && !old(self).scheduler()@.in_flight.contains(info.id@)
                    && final(self).scheduler()@ == old(self).scheduler()@,
            },
            final(self).config() == old(self).config(),
            final(self).accessors() == old(self).accessors(),
            final(self).cache() == old(self).cache(),
    {
        self.scheduler.complete_task(info, outcome)
    }

    /// Forgets the tasks that ended more than `max_age` ago.
    pub fn cleanup_completed_tasks(&mut self, max_age: Duration)
        requires
            old(self).wf(),
        ensures
            final(self).wf(),
            exists|now: i64|
                final(self).scheduler()@ == #[trigger] old(self).scheduler()@.cleaned(
                    now - max_age.seconds,
                ),
            final(self).config() == old(self).config(),
            final(self).accessors() == old(self).accessors(),
            final(self).cache() == old(self).cache(),
    {
        self.scheduler.cleanup_completed_tasks(max_age);
    }

    /// Shuts the scheduler down: no task is taken or started any more.
    pub fn shutdown(&mut self)
        requires
            old(self).wf(),
        ensures
            final(self).wf(),
            final(self).scheduler()@ == (SchedulerView {
                shut_down: true,
                ..old(self).scheduler()@
            }),
            final(self).config() == old(self).config(),
            final(self).accessors() == old(self).accessors(),
            final(self).cache() == old(self).cache(),
    {
        self.scheduler.shutdown();
    }
}

/// The paths of the backends whose listing succeeded, each with the name of
/// its backend, in the order of the first `n` listings. A listing that failed
/// contributes nothing.
pub open spec fn listed_paths(
    listings: Seq<(String, Result<Vec<String>, DoomsdayError>)>,
    n: int,
) -> Seq<(Seq<char>, Seq<char>)>
    decreases n,
{
    if n <= 0 {
        Seq::empty()
    } else {
        match listings[n - 1].1 {
            Ok(paths) => listed_paths(listings, n - 1) + paths@.map_values(
                |p: String| (listings[n - 1].0@, p@),
            ),
            Err(_) => listed_paths(listings, n - 1),
        }
    }
}

/// The views of a sequence of places.
pub open spec fn places_view(s: Seq<(String, String)>) -> Seq<(Seq<char>, Seq<char>)> {
    s.map_values(|p: (String, String)| (p.0@, p.1@))
}

/// All the paths to fetch: those of every backend whose listing succeeded,
/// each with the name of its backend.
pub fn collect_paths(listings: &Vec<(String, Result<Vec<String>, DoomsdayError>)>) -> (r: Vec<
    (String, String),
>)
    ensures
        places_view(r@) == listed_paths(listings@, listings@.len() as int),
{
    let mut out: Vec<(String, String)> = Vec::new();
    let mut i: usize = 0;
    proof {
        assert(places_view(out@) =~= listed_paths(listings@, 0));
    }
    while i < listings.len()
        invariant
            i <= listings.len(),
            places_view(out@) == listed_paths(listings@, i as int),
        decreases listings.len() - i,
    {
        match &listings[i].1 {
            Ok(paths) => {
                let ghost before = places_view(out@);
                let ghost name = listings@[i as int].0@;
                let mut j: usize = 0;
                while j < paths.len()
                    invariant
                        j <= paths.len(),
                        i < listings.len(),
                        name == listings@[i as int].0@,
                        places_view(out@).len() == before.len() + j,
                        forall|k: int| 0 <= k < before.len() ==> places_view(out@)[k] == before[k],
                        forall|k: int|
                            0 <= k < j ==> places_view(out@)[before.len() + k] == (
                                name,
                                paths@[k]@,
                            ),
                    decreases paths.len() - j,
                {
                    let ghost so_far = places_view(out@);
                    let place = (listings[i].0.clone(), paths[j].clone());
                    out.push(place);
                    proof {
                        assert(places_view(out@) =~= so_far.push((name, paths@[j as int]@)));
                    }
                    j += 1;
                }
                proof {
                    assert(places_view(out@) =~= before + paths@.map_values(
                        |p: String| (listings@[i as int].0@, p@),
                    ));
                }
            },
            Err(_) => {},
        }
        i += 1;
    }
    out
}

/// The paths of one backend, each with the backend's name.
pub open spec fn named_paths(backend_name: Seq<char>, paths: Seq<String>) -> Seq<(Seq<char>, Seq<char>)> {
    paths.map_values(|p: String| (backend_name, p@))
}

/// The paths to fetch when the backend named `backend_name` alone is
/// refreshed, given how its listing went: its paths, each with the backend's
/// name; or, where the listing failed, that failure, which is then the result
/// of the refresh, and nothing is fetched.
pub fn backend_places(backend_name: &str, listing: Result<Vec<String>, DoomsdayError>) -> (r: Result<
    Vec<(String, String)>,
    DoomsdayError,
>)
    ensures
        match listing {
            Ok(paths) => r matches Ok(places) && places_view(places@) == named_paths(
                backend_name@,
                paths@,
            ),
            Err(e) => r matches Err(failure) && failure == e,
        },
{
    match listing {
        Err(e) => Err(e),
        Ok(paths) => {
            let mut out: Vec<(String, String)> = Vec::new();
            let mut i: usize = 0;
            while i < paths.len()
                invariant
                    i <= paths.len(),
                    out.len() == i,
                    forall|j: int|
                        0 <= j < i ==> (#[trigger] out@[j]).0@ == backend_name@ && out@[j].1@
                            == paths@[j]@,
                decreases paths.len() - i,
            {
                out.push((String::from_str(backend_name), paths[i].clone()));
                i += 1;
            }
            proof {
                assert(places_view(out@) =~= named_paths(backend_name@, paths@));
            }
            Ok(out)
        },
    }
}

/// Whether `ranges` cuts the first `total` positions into runs of `size`, in
/// order, the last of which may be shorter.
pub open spec fn is_chunking(ranges: Seq<(usize, usize)>, total: int, size: int) -> bool {
    &&& ranges.len() * size >= total > (ranges.len() - 1) * size
    &&& forall|i: int|
        0 <= i < ranges.len() ==> (#[trigger] ranges[i]).0 == i * size && ranges[i].1 == if (i
            + 1) * size < total {
            (i + 1) * size
        } else {
            total
        }
}

/// The runs in which `total` paths are fetched, `size` at a time: the
/// bounds of each run, from the first position in it to the first after it.
pub fn chunk_ranges(total: usize, size: usize) -> (ranges: Vec<(usize, usize)>)
    requires
        size > 0,
    ensures
        is_chunking(ranges@, total as int, size as int),
{
    let mut ranges: Vec<(usize, usize)> = Vec::new();
    let mut start: usize = 0;
    proof {
        assert(0 * size == 0) by (nonlinear_arith);
    }
    while start < total
        invariant
            size > 0,
            start <= total,
            start == ranges.len() * size,
            start == total ==> ranges.len() == 0,
            forall|i: int|
                0 <= i < ranges.len() ==> (#[trigger] ranges@[i]).0 == i * size && ranges@[i].1
                    == if (i + 1) * size < total {
                    (i + 1) * size
                } else {
                    total as int
                },
        decreases total - start,
    {
        let end: usize = if total - start > size {
            start + size
        } else {
            total
        };
        proof {
            let n = ranges.len() as int;
            assert((n + 1) * size == n * size + size) by (nonlinear_arith);
        }
        ranges.push((start, end));
        if end == total {
            proof {
                let n = ranges.len() as int;
                assert((n - 1) * size == n * size - size) by (nonlinear_arith);
            }
            return ranges;
        }
        start = end;
    }
    proof {
        assert(0 * size == 0 && (0 - 1) * size < 0) by (nonlinear_arith)
            requires
                size > 0,
        ;
    }
    ranges
}

/// The runs in which the paths of all backends are fetched: a hundred at a
/// time.
pub fn populate_chunks(total: usize) -> (ranges: Vec<(usize, usize)>)
    ensures
        is_chunking(ranges@, total as int, 100),
{
    chunk_ranges(total, POPULATE_CHUNK_SIZE)
}

/// The runs in which the paths of one backend are fetched: fifty at a time.
pub fn refresh_chunks(total: usize) -> (ranges: Vec<(usize, usize)>)
    ensures
        is_chunking(ranges@, total as int, 50),
{
    chunk_ranges(total, REFRESH_CHUNK_SIZE)
}

} // verus!
