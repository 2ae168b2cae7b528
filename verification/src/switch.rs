//! The file index: a scan of the root directory tree into a catalog of
//! servable files, a reader/writer-locked shared catalog that rescans
//! replace wholesale, and path resolution with traversal protection.

use vstd::prelude::*;
use vstd::rwlock::{RwLock, RwLockPredicate};
use vstd::string::*;

use crate::fsops::{list_dir, stat_is_file, valid_entry_name, RawEntry};
use crate::paths::{
    lemma_plain_path_resolves, lemma_split_append, lemma_split_len, lemma_split_single,
    resolved_path, safe_join, seg_plain, split_path, str_eq,
};

verus! {

/// The name of the directory subtree the scan prunes.
pub open spec fn excluded_name() -> Seq<char> {
    seq!['d', 'e', 'm', 'o', 's']
}

/// A base name the scan hides: one that starts with a dot.
pub open spec fn hidden_name(s: Seq<char>) -> bool {
    s.len() > 0 && s[0] == '.'
}

/// One servable file.
pub struct SwitchFile {
    /// The file's base name.
    pub name: String,
    /// Path relative to the indexed root, with `/` separators.
    pub rel_path: String,
    /// Byte length at the time of the scan that recorded the entry.
    pub size: u64,
}

impl Clone for SwitchFile {
    fn clone(&self) -> (r: Self)
        ensures
            r == *self,
    {
        SwitchFile { name: self.name.clone(), rel_path: self.rel_path.clone(), size: self.size }
    }
}

/// A catalog entry the scan may record: the relative path splits into
/// plain segments — none hidden — the pruned name stands nowhere but
/// possibly in the final (file name) position, and the entry's name is
/// that final segment.
pub open spec fn catalog_entry_wf(f: SwitchFile) -> bool {
    let segs = split_path(f.rel_path@);
    &&& forall|i: int| 0 <= i < segs.len() ==> seg_plain(#[trigger] segs[i])
    &&& forall|i: int| 0 <= i < segs.len() - 1 ==> #[trigger] segs[i] != excluded_name()
    &&& f.name@ == segs.last()
}

/// A directory the scan may walk into, as a path relative to the root:
/// the root itself (empty), or plain, never-hidden, never-excluded
/// segments.
pub open spec fn dir_rel_wf(rel: Seq<char>) -> bool {
    rel.len() == 0 || {
        let segs = split_path(rel);
        &&& forall|i: int| 0 <= i < segs.len() ==> seg_plain(#[trigger] segs[i])
        &&& forall|i: int| 0 <= i < segs.len() ==> #[trigger] segs[i] != excluded_name()
    }
}

/// The relative path of a child of the directory at `rel`.
pub open spec fn child_rel(rel: Seq<char>, name: Seq<char>) -> Seq<char> {
    if rel.len() == 0 {
        name
    } else {
        rel + seq!['/'] + name
    }
}

/// What one catalog entry records, as plain values.
pub open spec fn file_view(f: SwitchFile) -> (Seq<char>, Seq<char>, u64) {
    (f.name@, f.rel_path@, f.size)
}

/// Whether the scan records a listed entry as a file: its metadata was
/// readable, it is a regular file, and its name is not hidden.
pub open spec fn records_file(e: RawEntry) -> bool {
    e.ok && e.is_file && !hidden_name(e.name@)
}

/// Whether the scan walks into a listed entry: a readable directory —
/// not a regular file — whose name is neither hidden nor the pruned
/// name.
pub open spec fn descends_into(e: RawEntry) -> bool {
    e.ok && !e.is_file && e.is_dir && !hidden_name(e.name@) && e.name@ != excluded_name()
}

/// The files one directory listing contributes to the catalog, in
/// listing order.
pub open spec fn listed_files(rel: Seq<char>, entries: Seq<RawEntry>) -> Seq<
    (Seq<char>, Seq<char>, u64),
>
    decreases entries.len(),
{
    if entries.len() == 0 {
        Seq::empty()
    } else {
        let rest = listed_files(rel, entries.drop_last());
        let e = entries.last();
        if records_file(e) {
            rest.push((e.name@, child_rel(rel, e.name@), e.size))
        } else {
            rest
        }
    }
}

/// The subdirectories one directory listing sends the walk into, in
/// listing order.
pub open spec fn listed_dirs(rel: Seq<char>, entries: Seq<RawEntry>) -> Seq<Seq<char>>
    decreases entries.len(),
{
    if entries.len() == 0 {
        Seq::empty()
    } else {
        let rest = listed_dirs(rel, entries.drop_last());
        let e = entries.last();
        if descends_into(e) {
            rest.push(child_rel(rel, e.name@))
        } else {
            rest
        }
    }
}

/// True when the scan treats `name` as the pruned directory name.
pub fn is_excluded_name(name: &str) -> (r: bool)
    ensures
        r == (name@ == excluded_name()),
{
    let r = str_eq(name, "demos");
    proof {
        reveal_strlit("demos");
        assert("demos"@ =~= excluded_name());
    }
    r
}

/// True when the scan hides `name`: it starts with a dot.
pub fn is_hidden_name(name: &str) -> (r: bool)
    ensures
        r == hidden_name(name@),
{
    name.unicode_len() > 0 && name.get_char(0) == '.'
}

/// Builds the relative path of a child of the directory at `rel`.
fn child_rel_exec(rel: &String, name: &String) -> (r: String)
    ensures
        r@ == child_rel(rel@, name@),
{
    if rel.as_str().unicode_len() == 0 {
        name.clone()
    } else {
        let mut out = rel.clone();
        out.append("/");
        out.append(name.as_str());
        proof {
            reveal_strlit("/");
            assert(out@ =~= rel@ + seq!['/'] + name@);
        }
        out
    }
}

/// Applies one directory listing to the scan state: records the plain
/// regular files of `entries` in the catalog under `rel`, and queues the
/// subdirectories the walk may enter. Exactly the listing's plain files
/// are appended, in order, and exactly its walkable subdirectories are
/// queued.
pub fn apply_listing(
    rel: &String,
    entries: &Vec<RawEntry>,
    files: &mut Vec<SwitchFile>,
    pending: &mut Vec<String>,
)
    requires
        dir_rel_wf(rel@),
        forall|i: int|
            0 <= i < entries@.len() && (#[trigger] entries@[i]).ok ==> valid_entry_name(
                entries@[i].name@,
            ),
        forall|i: int|
            0 <= i < old(files)@.len() ==> catalog_entry_wf(#[trigger] old(files)@[i]),
        forall|i: int| 0 <= i < old(pending)@.len() ==> dir_rel_wf(#[trigger] old(pending)@[i]@),
    ensures
        final(files)@.map_values(|f: SwitchFile| file_view(f)) == old(files)@.map_values(
            |f: SwitchFile| file_view(f),
        ) + listed_files(rel@, entries@),
        final(pending)@.map_values(|d: String| d@) == old(pending)@.map_values(|d: String| d@)
            + listed_dirs(rel@, entries@),
        forall|i: int| 0 <= i < final(files)@.len() ==> catalog_entry_wf(#[trigger] final(files)@[i]),
        forall|i: int| 0 <= i < final(pending)@.len() ==> dir_rel_wf(#[trigger] final(pending)@[i]@),
{
    let ghost files0 = files@;
    let ghost pending0 = pending@;
    let mut j: usize = 0;
    while j < entries.len()
        invariant
            0 <= j <= entries@.len(),
            dir_rel_wf(rel@),
            forall|i: int|
                0 <= i < entries@.len() && (#[trigger] entries@[i]).ok ==> valid_entry_name(
                    entries@[i].name@,
                ),
            files@.map_values(|f: SwitchFile| file_view(f)) == files0.map_values(
                |f: SwitchFile| file_view(f),
            ) + listed_files(rel@, entries@.take(j as int)),
            pending@.map_values(|d: String| d@) == pending0.map_values(|d: String| d@)
                + listed_dirs(rel@, entries@.take(j as int)),
            forall|i: int| 0 <= i < files0.len() ==> catalog_entry_wf(#[trigger] files0[i]),
            forall|i: int| 0 <= i < pending0.len() ==> dir_rel_wf(#[trigger] pending0[i]@),
            forall|i: int| 0 <= i < files@.len() ==> catalog_entry_wf(#[trigger] files@[i]),
            forall|i: int| 0 <= i < pending@.len() ==> dir_rel_wf(#[trigger] pending@[i]@),
        decreases entries@.len() - j,
    {
        proof {
            assert(entries@.take(j + 1).drop_last() =~= entries@.take(j as int));
            assert(entries@.take(j + 1).last() == entries@[j as int]);
        }
        let e = &entries[j];
        if e.ok && !is_hidden_name(e.name.as_str()) {
            proof {
                assert(valid_entry_name(e.name@));
            }
            if e.is_file {
                let rp = child_rel_exec(rel, &e.name);
                let ghost fprev = files@;
                proof {
                    lemma_child_wf(rel@, e.name@);
                }
                files.push(SwitchFile { name: e.name.clone(), rel_path: rp, size: e.size });
                proof {
                    assert(files@.map_values(|f: SwitchFile| file_view(f)) =~= fprev.map_values(
                        |f: SwitchFile| file_view(f),
                    ).push((e.name@, child_rel(rel@, e.name@), e.size)));
                    assert(files@.map_values(|f: SwitchFile| file_view(f)) =~= files0.map_values(
                        |f: SwitchFile| file_view(f),
                    ) + listed_files(rel@, entries@.take(j + 1)));
                }
            } else if e.is_dir && !is_excluded_name(e.name.as_str()) {
                let d = child_rel_exec(rel, &e.name);
                let ghost pprev = pending@;
                proof {
                    lemma_child_dir_wf(rel@, e.name@);
                }
                pending.push(d);
                proof {
                    assert(pending@.map_values(|d2: String| d2@) =~= pprev.map_values(
                        |d2: String| d2@,
                    ).push(child_rel(rel@, e.name@)));
                    assert(pending@.map_values(|d2: String| d2@) =~= pending0.map_values(
                        |d2: String| d2@,
                    ) + listed_dirs(rel@, entries@.take(j + 1)));
                }
            } else {
                proof {
                    assert(listed_files(rel@, entries@.take(j + 1)) =~= listed_files(
                        rel@,
                        entries@.take(j as int),
                    ));
                    assert(listed_dirs(rel@, entries@.take(j + 1)) =~= listed_dirs(
                        rel@,
                        entries@.take(j as int),
                    ));
                }
            }
        } else {
            proof {
                assert(listed_files(rel@, entries@.take(j + 1)) =~= listed_files(
                    rel@,
                    entries@.take(j as int),
                ));
                assert(listed_dirs(rel@, entries@.take(j + 1)) =~= listed_dirs(
                    rel@,
                    entries@.take(j as int),
                ));
            }
        }
        j = j + 1;
    }
    proof {
        assert(entries@.take(entries@.len() as int) =~= entries@);
    }
}

/// A plain, never-hidden child of a walkable directory is a well-formed
/// catalog path whose final segment is the child's name.
proof fn lemma_child_wf(rel: Seq<char>, name: Seq<char>)
    requires
        dir_rel_wf(rel),
        valid_entry_name(name),
        !hidden_name(name),
    ensures
        ({
            let segs = split_path(child_rel(rel, name));
            &&& forall|i: int| 0 <= i < segs.len() ==> seg_plain(#[trigger] segs[i])
            &&& forall|i: int| 0 <= i < segs.len() - 1 ==> #[trigger] segs[i] != excluded_name()
            &&& segs.last() == name
        }),
{
    assert(seg_plain(name));
    if rel.len() == 0 {
        lemma_split_single(name);
    } else {
        lemma_split_append(rel, name);
        lemma_split_len(rel);
    }
}

/// A walkable child directory of a walkable directory is itself
/// walkable.
proof fn lemma_child_dir_wf(rel: Seq<char>, name: Seq<char>)
    requires
        dir_rel_wf(rel),
        valid_entry_name(name),
        !hidden_name(name),
        name != excluded_name(),
    ensures
        dir_rel_wf(child_rel(rel, name)),
{
    lemma_child_wf(rel, name);
    let segs = split_path(child_rel(rel, name));
    lemma_split_len(child_rel(rel, name));
    assert(forall|i: int| 0 <= i < segs.len() ==> #[trigger] segs[i] != excluded_name()) by {
        assert(segs.last() == name);
    }
}

/// Bound on the number of directories one scan will list.
pub const SCAN_DIR_LIMIT: u64 = 1000000;

/// Walks the tree under `root`, pruning hidden entries and the excluded
/// directory name, and records every remaining regular file with its
/// root-relative path. A directory or entry whose metadata cannot be
/// read is dropped and the walk goes on; None only when the root itself
/// cannot be listed. Every recorded entry is a well-formed catalog
/// entry: no hidden or pruned segment stands anywhere in its path.
pub fn scan_dir(root: &str) -> (r: Option<Vec<SwitchFile>>)
    ensures
        r matches Some(files) ==> forall|i: int|
            0 <= i < files@.len() ==> catalog_entry_wf(#[trigger] files@[i]),
{
    let top = match list_dir(root) {
        Ok(entries) => entries,
        Err(_) => {
            return None;
        },
    };
    let mut files: Vec<SwitchFile> = Vec::new();
    let mut pending: Vec<String> = Vec::new();
    let empty_rel = String::new();
    apply_listing(&empty_rel, &top, &mut files, &mut pending);
    let mut fuel: u64 = SCAN_DIR_LIMIT;
    while pending.len() > 0 && fuel > 0
        invariant
            forall|i: int| 0 <= i < files@.len() ==> catalog_entry_wf(#[trigger] files@[i]),
            forall|i: int| 0 <= i < pending@.len() ==> dir_rel_wf(#[trigger] pending@[i]@),
        decreases fuel,
    {
        fuel = fuel - 1;
        let rel = match pending.pop() {
            Some(d) => d,
            None => {
                return Some(files);
            },
        };
        let mut full = root.to_owned();
        full.append("/");
        full.append(rel.as_str());
        match list_dir(full.as_str()) {
            Ok(entries) => {
                apply_listing(&rel, &entries, &mut files, &mut pending);
            },
            Err(_) => {},
        }
    }
    Some(files)
}

/// Every entry the scan records resolves, and resolves to its own
/// relative path joined directly under the root: the resolver accepts
/// every path the index hands out, and reroutes none of them.
pub proof fn lemma_catalog_entry_resolves(root: Seq<char>, f: SwitchFile)
    requires
        catalog_entry_wf(f),
    ensures
        resolved_path(root, f.rel_path@) == Some(root + seq!['/'] + f.rel_path@),
{
    lemma_plain_path_resolves(root, f.rel_path@);
}

/// The lock invariant of the shared catalog: it only ever holds
/// well-formed entries.
pub struct CatalogPred {}

impl RwLockPredicate<Vec<SwitchFile>> for CatalogPred {
    open spec fn inv(self, v: Vec<SwitchFile>) -> bool {
        forall|i: int| 0 <= i < v@.len() ==> catalog_entry_wf(#[trigger] v@[i])
    }
}

/// The file index: the fixed root path and the current catalog behind a
/// reader/writer lock. Readers take snapshots in parallel; a rescan
/// builds its catalog outside the lock and swaps it in whole, so a
/// reader only ever sees one complete scan's catalog.
pub struct SwitchService {
    path: String,
    files: RwLock<Vec<SwitchFile>, CatalogPred>,
}

impl SwitchService {
    /// The root path all relative paths are interpreted against.
    pub closed spec fn root(self) -> Seq<char> {
        self.path@
    }

    #[verifier::type_invariant]
    spec fn lock_wf(self) -> bool {
        self.files.pred() == (CatalogPred {  })
    }

    /// Builds the index with an initial scan of `path`. None when the
    /// root directory itself cannot be listed: the index cannot exist
    /// without a base catalog.
    pub fn new(path: &str) -> (r: Option<SwitchService>)
        ensures
            r matches Some(s) ==> s.root() == path@,
    {
        let files = match scan_dir(path) {
            Some(files) => files,
            None => {
                return None;
            },
        };
        let lock = RwLock::<Vec<SwitchFile>, CatalogPred>::new(files, Ghost(CatalogPred {  }));
        Some(SwitchService { path: path.to_owned(), files: lock })
    }

    /// Rescans the root and atomically replaces the catalog with the
    /// result. The walk runs outside the lock; only the swap holds it,
    /// so concurrent readers see the old catalog until the new one goes
    /// in whole. A root that can no longer be listed leaves an empty
    /// catalog, as an empty walk would.
    pub fn scan(&self) {
        let files = match scan_dir(self.path.as_str()) {
            Some(files) => files,
            None => Vec::new(),
        };
        proof {
            use_type_invariant(self);
        }
        let (_old_files, handle) = self.files.acquire_write();
        handle.release_write(files);
    }

    /// A snapshot of the current catalog: one complete scan's entries,
    /// every one well-formed. Runs under a read lock, in parallel with
    /// other readers.
    pub fn list_files(&self) -> (r: Vec<SwitchFile>)
        ensures
            forall|i: int| 0 <= i < r@.len() ==> catalog_entry_wf(#[trigger] r@[i]),
    {
        proof {
            use_type_invariant(self);
        }
        let handle = self.files.acquire_read();
        let files = handle.borrow();
        let mut out: Vec<SwitchFile> = Vec::new();
        let mut j: usize = 0;
        while j < files.len()
            invariant
                0 <= j <= files@.len(),
                forall|i: int| 0 <= i < files@.len() ==> catalog_entry_wf(#[trigger] files@[i]),
                forall|i: int| 0 <= i < out@.len() ==> catalog_entry_wf(#[trigger] out@[i]),
            decreases files@.len() - j,
        {
            out.push(files[j].clone());
            j = j + 1;
        }
        handle.release_read();
        out
    }

    /// The number of entries in the current catalog.
    pub fn catalog_len(&self) -> usize {
        proof {
            use_type_invariant(self);
        }
        let handle = self.files.acquire_read();
        let n = handle.borrow().len();
        handle.release_read();
        n
    }

    /// Resolves a client-supplied relative path against the root:
    /// normalizes it, rejects anything that escapes the root or reaches
    /// the root itself, and then only answers with the joined absolute
    /// path if the disk shows a regular file there. A path that
    /// normalizes outside the root is never resolved, whatever the disk
    /// holds; absence and escape are answered alike.
    pub fn resolve_file(&self, path: &str) -> (r: Option<String>)
        ensures
            resolved_path(self.root(), path@) is None ==> r is None,
            r matches Some(p) ==> Some(p@) == resolved_path(self.root(), path@),
    {
        match safe_join(self.path.as_str(), path) {
            None => None,
            Some(p) => {
                if stat_is_file(p.as_str()) {
                    Some(p)
                } else {
                    None
                }
            },
        }
    }
}

} // verus!
