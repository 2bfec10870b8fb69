use vstd::prelude::*;

verus! {

use crate::order::{lemma_lex_connex, lemma_lex_lt_irrefl, lemma_lex_lt_trans, lex_lt, lex_lt_chars};
use crate::paths::{
    assert_state_write_target, project_index_file, project_index_file_spec, project_storage_dir,
    project_storage_dir_spec, safe_write_target_spec, StoreError,
};
use crate::strutil::{chars_of, str_eq, string_from_chars, trim_chars, trim_spec};
use crate::update::{IndexedChunk, IndexedProject};

/// One line of the project catalog.
#[derive(Debug, Clone, PartialEq, Eq)]
pub struct ProjectCatalogEntry {
    pub project_path: String,
    pub files_scanned: usize,
    pub chunks_extracted: usize,
    pub indexed_at_unix: u64,
}

/// The ordered list of project summaries.
#[derive(Debug, Clone, PartialEq, Eq, Default)]
pub struct ProjectCatalog {
    pub projects: Vec<ProjectCatalogEntry>,
}

/// Catalog entries strictly ascending by project path; strictness gives
/// uniqueness of paths for free.
pub open spec fn catalog_sorted(entries: Seq<ProjectCatalogEntry>) -> bool {
    forall|i: int, j: int|
        #![trigger entries[i], entries[j]]
        0 <= i < j < entries.len() ==> lex_lt(entries[i].project_path@, entries[j].project_path@)
}

/// The catalog line that one saved snapshot must produce.
pub open spec fn entry_matches(e: ProjectCatalogEntry, p: IndexedProject) -> bool {
    &&& e.project_path@ == p.project_path@
    &&& e.files_scanned == p.files_scanned
    &&& e.chunks_extracted == p.chunks_extracted
    &&& e.indexed_at_unix == p.indexed_at_unix
}

/// In a sorted catalog no project path occurs twice.
pub proof fn lemma_sorted_unique_paths(entries: Seq<ProjectCatalogEntry>)
    requires
        catalog_sorted(entries),
    ensures
        forall|i: int, j: int|
            #![trigger entries[i], entries[j]]
            0 <= i < entries.len() && 0 <= j < entries.len() && i != j
                ==> entries[i].project_path@ != entries[j].project_path@,
{
    assert forall|i: int, j: int|
        #![trigger entries[i], entries[j]]
        0 <= i < entries.len() && 0 <= j < entries.len() && i != j
            implies entries[i].project_path@ != entries[j].project_path@ by {
        if i < j {
            lemma_lex_lt_irrefl(entries[i].project_path@);
        } else {
            lemma_lex_lt_irrefl(entries[j].project_path@);
        }
    }
}

fn summary_entry(indexed: &IndexedProject) -> (e: ProjectCatalogEntry)
    ensures
        entry_matches(e, *indexed),
{
    ProjectCatalogEntry {
        project_path: indexed.project_path.clone(),
        files_scanned: indexed.files_scanned,
        chunks_extracted: indexed.chunks_extracted,
        indexed_at_unix: indexed.indexed_at_unix,
    }
}

/// Upserts a snapshot's summary into the catalog: exactly one entry for
/// the project path remains, carrying the snapshot's counters, and the
/// catalog stays sorted; all other entries are untouched.
pub fn upsert_catalog_entry(catalog: &mut ProjectCatalog, indexed: &IndexedProject)
    requires
        catalog_sorted(old(catalog).projects@),
    ensures
        catalog_sorted(final(catalog).projects@),
        exists|i: int|
            0 <= i < final(catalog).projects@.len() && entry_matches(
                #[trigger] final(catalog).projects@[i],
                *indexed,
            ),
        forall|i: int|
            0 <= i < final(catalog).projects@.len() && (#[trigger] final(catalog).projects@[i]).project_path@ != indexed.project_path@ ==> old(catalog).projects@.contains(final(catalog).projects@[i]),
        forall|i: int|
            0 <= i < old(catalog).projects@.len() && (#[trigger] old(catalog).projects@[i]).project_path@ != indexed.project_path@ ==> final(catalog).projects@.contains(old(catalog).projects@[i]),
{
    let ghost orig = catalog.projects@;
    let pv = chars_of(indexed.project_path.as_str());
    let n = catalog.projects.len();
    let mut i: usize = 0;
    let mut scanning = true;
    while scanning && i < n
        invariant
            n == catalog.projects@.len(),
            catalog.projects@ == orig,
            pv@ == indexed.project_path@,
            i <= n,
            forall|k: int|
                0 <= k < i ==> lex_lt((#[trigger] orig[k]).project_path@, indexed.project_path@),
            !scanning ==> i < n && !lex_lt(orig[i as int].project_path@, indexed.project_path@),
        decreases n - i, scanning as int,
    {
        let ev = chars_of(catalog.projects[i].project_path.as_str());
        if lex_lt_chars(&ev, &pv) {
            i = i + 1;
        } else {
            scanning = false;
        }
    }
    let entry = summary_entry(indexed);
    if !scanning {
        let ev = chars_of(catalog.projects[i].project_path.as_str());
        if !lex_lt_chars(&pv, &ev) {
            proof {
                lemma_lex_connex(indexed.project_path@, orig[i as int].project_path@);
            }
            let _ = catalog.projects.remove(i);
            catalog.projects.insert(i, entry);
            proof {
                let now = catalog.projects@;
                assert(now.len() == orig.len());
                assert forall|a: int, b: int|
                    #![trigger now[a], now[b]]
                    0 <= a < b < now.len() implies lex_lt(
                    now[a].project_path@,
                    now[b].project_path@,
                ) by {
                    assert(now[a].project_path@ == orig[a].project_path@);
                    assert(now[b].project_path@ == orig[b].project_path@);
                }
                assert(entry_matches(now[i as int], *indexed));
                assert forall|k: int|
                    0 <= k < now.len() && (#[trigger] now[k]).project_path@
                        != indexed.project_path@ implies orig.contains(now[k]) by {
                    assert(now[k] == orig[k]);
                }
                assert forall|k: int|
                    0 <= k < orig.len() && (#[trigger] orig[k]).project_path@
                        != indexed.project_path@ implies now.contains(orig[k]) by {
                    assert(now[k] == orig[k]);
                }
            }
            return ;
        }
    }
    proof {
        if !scanning {
            lemma_lex_lt_irrefl(indexed.project_path@);
        }
    }
    catalog.projects.insert(i, entry);
    proof {
        let now = catalog.projects@;
        assert(now[i as int] == entry);
        assert forall|a: int, b: int|
            #![trigger now[a], now[b]]
            0 <= a < b < now.len() implies lex_lt(now[a].project_path@, now[b].project_path@) by {
            if a < i && b < i {
                assert(now[a] == orig[a]);
                assert(now[b] == orig[b]);
            } else if a < i && b == i {
                assert(now[a] == orig[a]);
            } else if a < i && b > i {
                assert(now[a] == orig[a]);
                assert(now[b] == orig[b - 1]);
                if b - 1 == a {
                    assert(lex_lt(now[a].project_path@, indexed.project_path@));
                    assert(lex_lt(indexed.project_path@, now[b].project_path@));
                    lemma_lex_lt_trans(
                        now[a].project_path@,
                        indexed.project_path@,
                        now[b].project_path@,
                    );
                }
            } else if a == i {
                assert(now[b] == orig[b - 1]);
                if b - 1 > i as int - 1 {
                    if b - 1 == i {
                        assert(lex_lt(indexed.project_path@, orig[i as int].project_path@));
                    } else {
                        assert(lex_lt(indexed.project_path@, orig[i as int].project_path@));
                        assert(lex_lt(
                            orig[i as int].project_path@,
                            orig[b - 1].project_path@,
                        ));
                        lemma_lex_lt_trans(
                            indexed.project_path@,
                            orig[i as int].project_path@,
                            orig[b - 1].project_path@,
                        );
                    }
                }
            } else {
                assert(now[a] == orig[a - 1]);
                assert(now[b] == orig[b - 1]);
            }
        }
        assert(entry_matches(now[i as int], *indexed));
        assert forall|k: int|
            0 <= k < now.len() && (#[trigger] now[k]).project_path@ != indexed.project_path@
                implies orig.contains(now[k]) by {
            if k < i {
                assert(now[k] == orig[k]);
            } else if k > i {
                assert(now[k] == orig[k - 1]);
            }
        }
        assert forall|k: int|
            0 <= k < orig.len() && (#[trigger] orig[k]).project_path@ != indexed.project_path@
                implies now.contains(orig[k]) by {
            if k < i {
                assert(now[k] == orig[k]);
            } else {
                assert(now[k + 1] == orig[k]);
            }
        }
    }
}

/// Snapshots carry pairwise distinct project paths.
pub open spec fn snapshots_unique(s: Seq<IndexedProject>) -> bool {
    forall|i: int, j: int|
        #![trigger s[i], s[j]]
        0 <= i < j < s.len() ==> s[i].project_path@ != s[j].project_path@
}

/// The first snapshot whose project path matches.
pub open spec fn lookup_in(s: Seq<IndexedProject>, path: Seq<char>) -> Option<IndexedProject>
    decreases s.len(),
{
    if s.len() == 0 {
        None
    } else if s[0].project_path@ == path {
        Some(s[0])
    } else {
        lookup_in(s.drop_first(), path)
    }
}

pub proof fn lemma_lookup_in_props(s: Seq<IndexedProject>, path: Seq<char>)
    ensures
        (lookup_in(s, path) is Some) <==> exists|i: int|
            0 <= i < s.len() && (#[trigger] s[i]).project_path@ == path,
        lookup_in(s, path) matches Some(p) ==> exists|i: int|
            0 <= i < s.len() && #[trigger] s[i] == p && s[i].project_path@ == path,
    decreases s.len(),
{
    if s.len() > 0 {
        if s[0].project_path@ == path {
        } else {
            lemma_lookup_in_props(s.drop_first(), path);
            if lookup_in(s, path) is Some {
                let p = lookup_in(s, path)->Some_0;
                let i = choose|i: int|
                    0 <= i < s.drop_first().len() && #[trigger] s.drop_first()[i] == p
                        && s.drop_first()[i].project_path@ == path;
                assert(s[i + 1] == p);
            }
            if exists|i: int| 0 <= i < s.len() && (#[trigger] s[i]).project_path@ == path {
                let i = choose|i: int|
                    0 <= i < s.len() && (#[trigger] s[i]).project_path@ == path;
                assert(i > 0);
                assert(s.drop_first()[i - 1] == s[i]);
            }
        }
    }
}

/// With unique paths the lookup finds exactly the element that carries the
/// path.
pub proof fn lemma_lookup_in_unique(s: Seq<IndexedProject>, path: Seq<char>, i: int)
    requires
        snapshots_unique(s),
        0 <= i < s.len(),
        s[i].project_path@ == path,
    ensures
        lookup_in(s, path) == Some(s[i]),
    decreases s.len(),
{
    if i == 0 {
    } else {
        assert(s[0].project_path@ != path);
        assert(s.drop_first()[i - 1] == s[i]);
        assert forall|a: int, b: int|
            #![trigger s.drop_first()[a], s.drop_first()[b]]
            0 <= a < b < s.drop_first().len() implies s.drop_first()[a].project_path@
            != s.drop_first()[b].project_path@ by {
            assert(s.drop_first()[a] == s[a + 1]);
            assert(s.drop_first()[b] == s[b + 1]);
        }
        lemma_lookup_in_unique(s.drop_first(), path, i - 1);
    }
}

/// Per-process model of the persisted project state: the catalog, the
/// per-project snapshots, and the selected-project pointer, rooted at one
/// working directory.  The surrounding program mirrors every accepted
/// mutation onto disk under `<cwd>/.codivex/`.
#[derive(Debug)]
pub struct ProjectStore {
    pub cwd: String,
    pub catalog: ProjectCatalog,
    pub snapshots: Vec<IndexedProject>,
    pub selected: Option<String>,
}

impl ProjectStore {
    pub open spec fn wf(self) -> bool {
        catalog_sorted(self.catalog.projects@) && snapshots_unique(self.snapshots@)
    }

    pub open spec fn lookup_spec(self, path: Seq<char>) -> Option<IndexedProject> {
        lookup_in(self.snapshots@, path)
    }

    pub fn new(cwd: String) -> (r: Self)
        ensures
            r.wf(),
            r.cwd == cwd,
            r.catalog.projects@.len() == 0,
            r.snapshots@.len() == 0,
            r.selected is None,
    {
        ProjectStore {
            cwd,
            catalog: ProjectCatalog { projects: Vec::new() },
            snapshots: Vec::new(),
            selected: None,
        }
    }

    /// Saves a snapshot: both write targets (index file and storage
    /// directory) must pass the write-target guard; the snapshot replaces
    /// any earlier snapshot of the same project, and the catalog gains or
    /// refreshes exactly one summary line.  Together with
    /// `load_project_index` this gives the round trip: after a successful
    /// save, loading the same project path returns the saved snapshot.
    pub fn save_project_index(&mut self, indexed: IndexedProject) -> (r: Result<(), StoreError>)
        requires
            old(self).wf(),
        ensures
            final(self).wf(),
            final(self).cwd == old(self).cwd,
            final(self).selected == old(self).selected,
            r is Ok <==> (safe_write_target_spec(
                old(self).cwd@,
                indexed.project_path@,
                project_index_file_spec(old(self).cwd@, indexed.project_path@),
            ) && safe_write_target_spec(
                old(self).cwd@,
                indexed.project_path@,
                project_storage_dir_spec(old(self).cwd@, indexed.project_path@),
            )),
            r is Err ==> final(self).catalog == old(self).catalog && final(self).snapshots == old(self).snapshots,
            r is Ok ==> final(self).lookup_spec(indexed.project_path@) == Some(indexed),
            r is Ok ==> forall|q: Seq<char>|
                q != indexed.project_path@ ==> #[trigger] final(self).lookup_spec(q) == old(self).lookup_spec(q),
            r is Ok ==> catalog_sorted(final(self).catalog.projects@) && exists|i: int|
                0 <= i < final(self).catalog.projects@.len() && entry_matches(
                    #[trigger] final(self).catalog.projects@[i],
                    indexed,
                ),
            r is Ok ==> forall|i: int|
                0 <= i < final(self).catalog.projects@.len() && (#[trigger] final(self).catalog.projects@[i]).project_path@ != indexed.project_path@ ==> old(self).catalog.projects@.contains(final(self).catalog.projects@[i]),
            r is Ok ==> forall|i: int|
                0 <= i < old(self).catalog.projects@.len() && (#[trigger] old(self).catalog.projects@[i]).project_path@ != indexed.project_path@ ==> final(self).catalog.projects@.contains(old(self).catalog.projects@[i]),
    {
        let index_file = project_index_file(self.cwd.as_str(), indexed.project_path.as_str());
        if let Err(e) = assert_state_write_target(
            self.cwd.as_str(),
            indexed.project_path.as_str(),
            index_file.as_str(),
        ) {
            return Err(e);
        }
        let storage_dir = project_storage_dir(self.cwd.as_str(), indexed.project_path.as_str());
        if let Err(e) = assert_state_write_target(
            self.cwd.as_str(),
            indexed.project_path.as_str(),
            storage_dir.as_str(),
        ) {
            return Err(e);
        }
        let ghost orig = self.snapshots@;
        let mut idx: usize = 0;
        let n = self.snapshots.len();
        let mut found = false;
        while !found && idx < n
            invariant
                n == self.snapshots@.len(),
                self.snapshots@ == orig,
                idx <= n,
                forall|k: int|
                    0 <= k < idx ==> (#[trigger] orig[k]).project_path@ != indexed.project_path@,
                found ==> idx < n && orig[idx as int].project_path@ == indexed.project_path@,
            decreases n - idx, !found as int,
        {
            if str_eq(
                self.snapshots[idx].project_path.as_str(),
                indexed.project_path.as_str(),
            ) {
                found = true;
            } else {
                idx = idx + 1;
            }
        }
        if found {
            let _ = self.snapshots.remove(idx);
            self.snapshots.insert(idx, indexed);
        } else {
            self.snapshots.push(indexed);
        }
        proof {
            let now = self.snapshots@;
            let pos: int = idx as int;
            if found {
                assert(now =~= orig.update(pos, indexed));
            } else {
                assert(pos == orig.len());
                assert(now =~= orig.push(indexed));
            }
            assert(now[pos] == indexed);
            assert forall|a: int, b: int|
                #![trigger now[a], now[b]]
                0 <= a < b < now.len() implies now[a].project_path@ != now[b].project_path@ by {
                if a != pos && b != pos {
                    assert(now[a] == orig[a]);
                    assert(now[b] == orig[b]);
                } else if a == pos {
                    assert(now[b] == orig[b]);
                    if found {
                        if orig[b].project_path@ == indexed.project_path@ {
                            assert(orig[pos].project_path@ == orig[b].project_path@);
                        }
                    }
                } else {
                    assert(now[a] == orig[a]);
                }
            }
            lemma_lookup_in_unique(now, indexed.project_path@, pos);
            assert forall|q: Seq<char>| q != indexed.project_path@ implies #[trigger] lookup_in(
                now,
                q,
            ) == lookup_in(orig, q) by {
                lemma_lookup_in_props(now, q);
                lemma_lookup_in_props(orig, q);
                if lookup_in(orig, q) is Some {
                    let k = choose|k: int|
                        0 <= k < orig.len() && #[trigger] orig[k] == lookup_in(orig, q)->Some_0
                            && orig[k].project_path@ == q;
                    assert(k != pos);
                    assert(now[k] == orig[k]);
                    lemma_lookup_in_unique(now, q, k);
                    lemma_lookup_in_unique(orig, q, k);
                } else {
                    if lookup_in(now, q) is Some {
                        let k = choose|k: int|
                            0 <= k < now.len() && (#[trigger] now[k]).project_path@ == q;
                        assert(k != pos);
                        assert(now[k] == orig[k]);
                        assert(exists|m: int|
                            0 <= m < orig.len() && (#[trigger] orig[m]).project_path@ == q);
                    }
                }
            }
        }
        upsert_catalog_entry(&mut self.catalog, &self.snapshots[idx]);
        proof {
            assert(self.snapshots@[idx as int] == indexed);
            let w = choose|i: int|
                0 <= i < self.catalog.projects@.len() && entry_matches(
                    #[trigger] self.catalog.projects@[i],
                    self.snapshots@[idx as int],
                );
            assert(entry_matches(self.catalog.projects@[w], indexed));
        }
        Ok(())
    }

    /// The snapshot saved for a project path, if any.
    pub fn load_project_index(&self, project_path: &str) -> (r: Option<&IndexedProject>)
        ensures
            match r {
                Some(p) => self.lookup_spec(project_path@) == Some(*p),
                None => self.lookup_spec(project_path@) is None,
            },
    {
        let n = self.snapshots.len();
        let mut i: usize = 0;
        proof {
            assert(self.snapshots@.skip(0) =~= self.snapshots@);
        }
        while i < n
            invariant
                n == self.snapshots@.len(),
                i <= n,
                lookup_in(self.snapshots@, project_path@) == lookup_in(
                    self.snapshots@.skip(i as int),
                    project_path@,
                ),
            decreases n - i,
        {
            if str_eq(self.snapshots[i].project_path.as_str(), project_path) {
                proof {
                    assert(self.snapshots@.skip(i as int)[0] == self.snapshots@[i as int]);
                }
                return Some(&self.snapshots[i]);
            }
            proof {
                assert(self.snapshots@.skip(i as int)[0] == self.snapshots@[i as int]);
                assert(self.snapshots@.skip(i as int).drop_first() =~= self.snapshots@.skip(
                    i + 1 as int,
                ));
            }
            i = i + 1;
        }
        proof {
            assert(self.snapshots@.skip(n as int).len() == 0);
        }
        None
    }

    /// The pipeline's first step: the snapshot for the scope, or
    /// `NotIndexed` exactly when the store holds none.
    pub fn require_project_index(&self, project_path: &str) -> (r: Result<
        &IndexedProject,
        StoreError,
    >)
        ensures
            match r {
                Ok(p) => self.lookup_spec(project_path@) == Some(*p),
                Err(e) => self.lookup_spec(project_path@) is None && e == StoreError::NotIndexed,
            },
    {
        match self.load_project_index(project_path) {
            Some(p) => Ok(p),
            None => Err(StoreError::NotIndexed),
        }
    }

    /// Removes a project: its snapshot and its catalog line disappear;
    /// everything else is untouched.  The write targets are guarded as on
    /// save.
    pub fn remove_project_index(&mut self, project_path: &str) -> (r: Result<(), StoreError>)
        requires
            old(self).wf(),
        ensures
            final(self).wf(),
            final(self).cwd == old(self).cwd,
            final(self).selected == old(self).selected,
            r is Ok <==> (safe_write_target_spec(
                old(self).cwd@,
                project_path@,
                project_index_file_spec(old(self).cwd@, project_path@),
            ) && safe_write_target_spec(
                old(self).cwd@,
                project_path@,
                project_storage_dir_spec(old(self).cwd@, project_path@),
            )),
            r is Err ==> final(self).catalog == old(self).catalog && final(self).snapshots == old(self).snapshots,
            r is Ok ==> final(self).lookup_spec(project_path@) is None,
            r is Ok ==> forall|i: int|
                0 <= i < final(self).catalog.projects@.len() ==> (#[trigger] final(self).catalog.projects@[i]).project_path@ != project_path@ && old(self).catalog.projects@.contains(final(self).catalog.projects@[i]),
            r is Ok ==> forall|i: int|
                0 <= i < old(self).catalog.projects@.len() && (#[trigger] old(self).catalog.projects@[i]).project_path@ != project_path@ ==> final(self).catalog.projects@.contains(old(self).catalog.projects@[i]),
            r is Ok ==> forall|q: Seq<char>|
                q != project_path@ ==> #[trigger] final(self).lookup_spec(q) == old(self).lookup_spec(q),
    {
        let index_file = project_index_file(self.cwd.as_str(), project_path);
        if let Err(e) = assert_state_write_target(
            self.cwd.as_str(),
            project_path,
            index_file.as_str(),
        ) {
            return Err(e);
        }
        let storage_dir = project_storage_dir(self.cwd.as_str(), project_path);
        if let Err(e) = assert_state_write_target(
            self.cwd.as_str(),
            project_path,
            storage_dir.as_str(),
        ) {
            return Err(e);
        }
        let ghost sorig = self.snapshots@;
        let sn = self.snapshots.len();
        let mut i: usize = 0;
        let mut sfound = false;
        while !sfound && i < sn
            invariant
                sn == self.snapshots@.len(),
                self.snapshots@ == sorig,
                i <= sn,
                forall|k: int| 0 <= k < i ==> (#[trigger] sorig[k]).project_path@ != project_path@,
                sfound ==> i < sn && sorig[i as int].project_path@ == project_path@,
            decreases sn - i, !sfound as int,
        {
            if str_eq(self.snapshots[i].project_path.as_str(), project_path) {
                sfound = true;
            } else {
                i = i + 1;
            }
        }
        if sfound {
            let _ = self.snapshots.remove(i);
        }
        proof {
            let snow = self.snapshots@;
            if sfound {
                assert forall|a: int, b: int|
                    #![trigger snow[a], snow[b]]
                    0 <= a < b < snow.len() implies snow[a].project_path@
                    != snow[b].project_path@ by {
                    let a0: int = if a < i { a } else { a + 1 };
                    let b0: int = if b < i { b } else { b + 1 };
                    assert(snow[a] == sorig[a0]);
                    assert(snow[b] == sorig[b0]);
                }
            }
            lemma_lookup_in_props(snow, project_path@);
            if lookup_in(snow, project_path@) is Some {
                let k = choose|k: int|
                    0 <= k < snow.len() && (#[trigger] snow[k]).project_path@ == project_path@;
                if sfound {
                    let k0: int = if k < i { k } else { k + 1 };
                    assert(snow[k] == sorig[k0]);
                    assert(sorig[k0].project_path@ == sorig[i as int].project_path@);
                }
                assert(false);
            }
            assert forall|q: Seq<char>| q != project_path@ implies #[trigger] lookup_in(snow, q)
                == lookup_in(sorig, q) by {
                lemma_lookup_in_props(snow, q);
                lemma_lookup_in_props(sorig, q);
                if lookup_in(sorig, q) is Some {
                    let k = choose|k: int|
                        0 <= k < sorig.len() && #[trigger] sorig[k] == lookup_in(sorig, q)->Some_0
                            && sorig[k].project_path@ == q;
                    if sfound {
                        assert(k != i);
                        let k1: int = if k < i { k } else { k - 1 };
                        assert(snow[k1] == sorig[k]);
                        lemma_lookup_in_unique(snow, q, k1);
                        lemma_lookup_in_unique(sorig, q, k);
                    } else {
                        assert(snow == sorig);
                    }
                } else {
                    if lookup_in(snow, q) is Some {
                        let k = choose|k: int|
                            0 <= k < snow.len() && (#[trigger] snow[k]).project_path@ == q;
                        if sfound {
                            let k0: int = if k < i { k } else { k + 1 };
                            assert(snow[k] == sorig[k0]);
                            assert(exists|m: int|
                                0 <= m < sorig.len() && (#[trigger] sorig[m]).project_path@ == q);
                        }
                        assert(false);
                    }
                }
            }
        }
        let ghost corig = self.catalog.projects@;
        let cn = self.catalog.projects.len();
        let mut j: usize = 0;
        let mut cfound = false;
        while !cfound && j < cn
            invariant
                cn == self.catalog.projects@.len(),
                self.catalog.projects@ == corig,
                j <= cn,
                forall|k: int| 0 <= k < j ==> (#[trigger] corig[k]).project_path@ != project_path@,
                cfound ==> j < cn && corig[j as int].project_path@ == project_path@,
            decreases cn - j, !cfound as int,
        {
            if str_eq(self.catalog.projects[j].project_path.as_str(), project_path) {
                cfound = true;
            } else {
                j = j + 1;
            }
        }
        if cfound {
            let _ = self.catalog.projects.remove(j);
        }
        proof {
            let cnow = self.catalog.projects@;
            if cfound {
                lemma_sorted_unique_paths(corig);
                assert forall|a: int, b: int|
                    #![trigger cnow[a], cnow[b]]
                    0 <= a < b < cnow.len() implies lex_lt(
                    cnow[a].project_path@,
                    cnow[b].project_path@,
                ) by {
                    let a0: int = if a < j { a } else { a + 1 };
                    let b0: int = if b < j { b } else { b + 1 };
                    assert(cnow[a] == corig[a0]);
                    assert(cnow[b] == corig[b0]);
                }
            }
            assert forall|i2: int| 0 <= i2 < cnow.len() implies (#[trigger] cnow[i2]).project_path@
                != project_path@ && corig.contains(cnow[i2]) by {
                if cfound {
                    lemma_sorted_unique_paths(corig);
                    let i0: int = if i2 < j { i2 } else { i2 + 1 };
                    assert(cnow[i2] == corig[i0]);
                    if corig[i0].project_path@ == project_path@ {
                        assert(corig[j as int].project_path@ == project_path@);
                        assert(i0 != j);
                        assert(false);
                    }
                } else {
                    assert(cnow[i2] == corig[i2]);
                }
            }
            assert forall|i2: int|
                0 <= i2 < corig.len() && (#[trigger] corig[i2]).project_path@ != project_path@
                    implies cnow.contains(corig[i2]) by {
                if cfound {
                    assert(i2 != j);
                    if i2 < j {
                        assert(cnow[i2] == corig[i2]);
                    } else {
                        assert(cnow[i2 - 1] == corig[i2]);
                    }
                } else {
                    assert(cnow[i2] == corig[i2]);
                }
            }
        }
        Ok(())
    }
}


/// Views of a string vector strictly ascending.
pub open spec fn paths_sorted(v: Seq<String>) -> bool {
    forall|i: int, j: int|
        #![trigger v[i], v[j]]
        0 <= i < j < v.len() ==> lex_lt(v[i]@, v[j]@)
}

/// Some element's view equals `x`.
pub open spec fn contains_view(v: Seq<String>, x: Seq<char>) -> bool {
    exists|i: int| 0 <= i < v.len() && (#[trigger] v[i])@ == x
}

/// Inserts a path into a sorted vector, keeping it sorted and adding
/// exactly that view (nothing changes when it is already present).
pub fn insert_sorted_unique(v: &mut Vec<String>, s: String)
    requires
        paths_sorted(old(v)@),
    ensures
        paths_sorted(final(v)@),
        forall|x: Seq<char>|
            #[trigger] contains_view(final(v)@, x) <==> (contains_view(old(v)@, x) || x == s@),
{
    let ghost orig = v@;
    let sv = chars_of(s.as_str());
    let n = v.len();
    let mut i: usize = 0;
    let mut scanning = true;
    while scanning && i < n
        invariant
            n == v@.len(),
            v@ == orig,
            sv@ == s@,
            i <= n,
            forall|k: int| 0 <= k < i ==> lex_lt((#[trigger] orig[k])@, s@),
            !scanning ==> i < n && !lex_lt(orig[i as int]@, s@),
        decreases n - i, scanning as int,
    {
        let ev = chars_of(v[i].as_str());
        if lex_lt_chars(&ev, &sv) {
            i = i + 1;
        } else {
            scanning = false;
        }
    }
    if !scanning {
        let ev = chars_of(v[i].as_str());
        if !lex_lt_chars(&sv, &ev) {
            proof {
                lemma_lex_connex(s@, orig[i as int]@);
                assert forall|x: Seq<char>|
                    #[trigger] contains_view(v@, x) implies (contains_view(orig, x) || x
                    == s@) by {}
                assert forall|x: Seq<char>|
                    (contains_view(orig, x) || x == s@) implies #[trigger] contains_view(
                    v@,
                    x,
                ) by {
                    if x == s@ {
                        assert(v@[i as int]@ == x);
                    }
                }
            }
            return ;
        }
    }
    proof {
        if !scanning {
            lemma_lex_lt_irrefl(s@);
        }
    }
    v.insert(i, s);
    proof {
        let now = v@;
        assert(now[i as int]@ == s@);
        assert forall|a: int, b: int|
            #![trigger now[a], now[b]]
            0 <= a < b < now.len() implies lex_lt(now[a]@, now[b]@) by {
            if a < i && b < i {
                assert(now[a] == orig[a]);
                assert(now[b] == orig[b]);
            } else if a < i && b == i {
                assert(now[a] == orig[a]);
            } else if a < i && b > i {
                assert(now[a] == orig[a]);
                assert(now[b] == orig[b - 1]);
                if b - 1 == a {
                    lemma_lex_lt_trans(now[a]@, s@, now[b]@);
                }
            } else if a == i {
                assert(now[b] == orig[b - 1]);
                if b - 1 == i {
                } else {
                    lemma_lex_lt_trans(s@, orig[i as int]@, orig[b - 1]@);
                }
            } else {
                assert(now[a] == orig[a - 1]);
                assert(now[b] == orig[b - 1]);
            }
        }
        assert forall|x: Seq<char>|
            #[trigger] contains_view(now, x) implies (contains_view(orig, x) || x == s@) by {
            let w = choose|w: int| 0 <= w < now.len() && (#[trigger] now[w])@ == x;
            if w < i {
                assert(orig[w]@ == x);
            } else if w > i {
                assert(orig[w - 1]@ == x);
            }
        }
        assert forall|x: Seq<char>|
            (contains_view(orig, x) || x == s@) implies #[trigger] contains_view(now, x) by {
            if x == s@ {
                assert(now[i as int]@ == x);
            } else {
                let w = choose|w: int| 0 <= w < orig.len() && (#[trigger] orig[w])@ == x;
                if w < i {
                    assert(now[w]@ == x);
                } else {
                    assert(now[w + 1]@ == x);
                }
            }
        }
    }
}

impl ProjectStore {
    /// The selected project as reads see it: trimmed, and empty means none.
    pub open spec fn selected_view(self) -> Option<Seq<char>> {
        match self.selected {
            Some(s) => if trim_spec(s@).len() == 0 {
                None
            } else {
                Some(trim_spec(s@))
            },
            None => None,
        }
    }

    /// Points the store at a project; the write target is guarded like any
    /// other store write.
    pub fn write_selected_project(&mut self, project_path: String) -> (r: Result<(), StoreError>)
        ensures
            final(self).cwd == old(self).cwd,
            final(self).catalog == old(self).catalog,
            final(self).snapshots == old(self).snapshots,
            r is Ok <==> safe_write_target_spec(
                old(self).cwd@,
                project_path@,
                crate::paths::selected_project_file_spec(old(self).cwd@),
            ),
            r is Ok ==> final(self).selected == Some(project_path),
            r is Err ==> final(self).selected == old(self).selected,
    {
        let target = crate::paths::selected_project_file(self.cwd.as_str());
        if let Err(e) = assert_state_write_target(
            self.cwd.as_str(),
            project_path.as_str(),
            target.as_str(),
        ) {
            return Err(e);
        }
        self.selected = Some(project_path);
        Ok(())
    }

    /// The trimmed selected project path, or nothing when it is unset or
    /// blank.
    pub fn read_selected_project(&self) -> (r: Option<String>)
        ensures
            match r {
                Some(t) => self.selected_view() == Some(t@),
                None => self.selected_view() is None,
            },
    {
        match &self.selected {
            Some(s) => {
                let cs = chars_of(s.as_str());
                let trimmed = trim_chars(&cs);
                if trimmed.len() == 0 {
                    None
                } else {
                    Some(string_from_chars(&trimmed))
                }
            },
            None => None,
        }
    }

    pub fn read_catalog(&self) -> (r: &ProjectCatalog)
        ensures
            r == &self.catalog,
    {
        &self.catalog
    }


    /// Lists a project in the catalog before its first full indexing pass:
    /// a project that already has a snapshot is left alone, anything else
    /// gets an empty snapshot saved under its path.
    pub fn ensure_catalog_entry(&mut self, repo_path: &str, now: u64) -> (r: Result<
        (),
        StoreError,
    >)
        requires
            old(self).wf(),
        ensures
            final(self).wf(),
            final(self).cwd == old(self).cwd,
            old(self).lookup_spec(repo_path@) is Some ==> r is Ok && *final(self) == *old(self),
            r is Ok ==> final(self).lookup_spec(repo_path@) is Some,
            old(self).lookup_spec(repo_path@) is None ==> (r is Ok <==> (safe_write_target_spec(
                old(self).cwd@,
                repo_path@,
                project_index_file_spec(old(self).cwd@, repo_path@),
            ) && safe_write_target_spec(
                old(self).cwd@,
                repo_path@,
                project_storage_dir_spec(old(self).cwd@, repo_path@),
            ))),
    {
        if self.load_project_index(repo_path).is_some() {
            return Ok(());
        }
        let pv = chars_of(repo_path);
        let snapshot = IndexedProject {
            project_path: string_from_chars(&pv),
            files_scanned: 0,
            chunks_extracted: 0,
            indexed_at_unix: now,
            chunks: Vec::new(),
        };
        self.save_project_index(snapshot)
    }

    /// The union of the catalog's project paths and the selected project,
    /// deduplicated and sorted ascending.
    pub fn discover_projects(&self) -> (r: Vec<String>)
        requires
            self.wf(),
        ensures
            paths_sorted(r@),
            forall|x: Seq<char>|
                #[trigger] contains_view(r@, x) <==> ((exists|i: int|
                    0 <= i < self.catalog.projects@.len() && (
                    #[trigger] self.catalog.projects@[i]).project_path@ == x) || self.selected_view()
                    == Some(x)),
    {
        let mut out: Vec<String> = Vec::new();
        let n = self.catalog.projects.len();
        let mut i: usize = 0;
        while i < n
            invariant
                n == self.catalog.projects@.len(),
                i <= n,
                paths_sorted(out@),
                forall|x: Seq<char>|
                    #[trigger] contains_view(out@, x) <==> exists|k: int|
                        0 <= k < i && (#[trigger] self.catalog.projects@[k]).project_path@ == x,
            decreases n - i,
        {
            insert_sorted_unique(&mut out, self.catalog.projects[i].project_path.clone());
            proof {
                assert forall|x: Seq<char>| #[trigger] contains_view(out@, x) implies exists|k: int|
                    0 <= k < i + 1 && (#[trigger] self.catalog.projects@[k]).project_path@
                        == x by {
                    if x != self.catalog.projects@[i as int].project_path@ {
                        let k = choose|k: int|
                            0 <= k < i && (#[trigger] self.catalog.projects@[k]).project_path@
                                == x;
                        assert(0 <= k < i + 1);
                    } else {
                        assert(self.catalog.projects@[i as int].project_path@ == x);
                    }
                }
            }
            i = i + 1;
        }
        match self.read_selected_project() {
            Some(sel) => {
                insert_sorted_unique(&mut out, sel);
            },
            None => {},
        }
        out
    }
}

} // verus!
