//! Captures of directory trees and the structural difference between two of them.
use vstd::prelude::*;

use crate::change::{change_of, changes_view, Change, ChangeKind, ChangeSet, ChangeView};
use crate::error::ImageError;
use crate::hashing::{seahash_fingerprint, seahash_of};
use crate::paths::{join_spec, join_path};
use crate::instructions::Dest;
use crate::text::{
    last_index_of, lemma_last_index_of, opt_view, rfind_char, strip_leading, strip_trailing, substring,
};

verus! {

/// Ownership and permission bits of a snapshot entry.
#[derive(Debug, Clone, Copy, PartialEq, Eq, Structural)]
pub struct SnapshotEntryMetadata {
    pub uid: u32,
    pub gid: u32,
    pub readonly: bool,
}

/// What a directory walk found at one path.
#[derive(Debug, Clone, Copy, PartialEq, Eq, Structural)]
pub enum FileKind {
    File,
    Symlink,
    Directory,
    Other,
}

/// The state of one path of a snapshot.
#[derive(Debug)]
pub struct SnapshotEntry {
    /// Metadata of the file, directory or symlink; `None` when it could not be read.
    pub metadata: Option<SnapshotEntryMetadata>,
    /// Hash of a regular file's content.
    pub fingerprint: Option<u64>,
    /// The text of a symlink.
    pub target: Option<String>,
}

/// The mathematical value of a [`SnapshotEntry`].
pub struct EntryView {
    pub metadata: Option<SnapshotEntryMetadata>,
    pub fingerprint: Option<u64>,
    pub target: Option<Seq<char>>,
}

impl View for SnapshotEntry {
    type V = EntryView;

    open spec fn view(&self) -> EntryView {
        EntryView { metadata: self.metadata, fingerprint: self.fingerprint, target: opt_view(self.target) }
    }
}

/// The fingerprint of an entry: the hash of the content, for a regular file whose content was read.
pub open spec fn fingerprint_spec(kind: FileKind, content: Option<Seq<u8>>) -> Option<u64> {
    match (kind, content) {
        (FileKind::File, Some(c)) => Some(seahash_of(c)),
        _ => None,
    }
}

/// The link text of an entry: present for a symlink whose target was read.
pub open spec fn target_spec(kind: FileKind, target: Option<Seq<char>>) -> Option<Seq<char>> {
    match kind {
        FileKind::Symlink => target,
        _ => None,
    }
}

fn same_text(a: &Option<String>, b: &Option<String>) -> (r: bool)
    ensures
        r == (opt_view(*a) == opt_view(*b)),
{
    match a {
        Some(x) => match b {
            Some(y) => {
                let e: bool = x.eq(y);
                e
            },
            None => false,
        },
        None => b.is_none(),
    }
}

impl SnapshotEntry {
    /// Builds the entry for one path from what was read of it: its kind, its
    /// metadata, the bytes of a regular file and the text of a symlink. A
    /// directory's entry holds none of the three.
    pub fn new(
        kind: FileKind,
        metadata: Option<SnapshotEntryMetadata>,
        content: Option<&[u8]>,
        target: Option<String>,
    ) -> (r: SnapshotEntry)
        ensures
            r@.metadata == (if kind == FileKind::Directory {
                None
            } else {
                metadata
            }),
            r@.fingerprint == fingerprint_spec(
                kind,
                match content {
                    Some(c) => Some(c@),
                    None => None,
                },
            ),
            r@.target == target_spec(kind, opt_view(target)),
    {
        let fingerprint = match kind {
            FileKind::File => match content {
                Some(c) => Some(seahash_fingerprint(c)),
                None => None,
            },
            _ => None,
        };
        let target = match kind {
            FileKind::Symlink => target,
            _ => None,
        };
        let metadata = match kind {
            FileKind::Directory => None,
            _ => metadata,
        };
        SnapshotEntry { metadata, fingerprint, target }
    }

    /// Whether two entries hold the same metadata, fingerprint and target.
    pub fn same(&self, other: &SnapshotEntry) -> (r: bool)
        ensures
            r == (self@ == other@),
    {
        let t = same_text(&self.target, &other.target);
        let m = match (self.metadata, other.metadata) {
            (Some(a), Some(b)) => a.uid == b.uid && a.gid == b.gid && a.readonly == b.readonly,
            (None, None) => true,
            _ => false,
        };
        let f = match (self.fingerprint, other.fingerprint) {
            (Some(a), Some(b)) => a == b,
            (None, None) => true,
            _ => false,
        };
        assert(m == (self.metadata == other.metadata));
        assert(f == (self.fingerprint == other.fingerprint));
        assert(t == (opt_view(self.target) == opt_view(other.target)));
        m && f && t
    }
}

impl PartialEq for SnapshotEntry {
    fn eq(&self, other: &SnapshotEntry) -> (r: bool) {
        self.same(other)
    }
}

impl vstd::std_specs::cmp::PartialEqSpecImpl for SnapshotEntry {
    open spec fn obeys_eq_spec() -> bool {
        true
    }

    open spec fn eq_spec(&self, other: &SnapshotEntry) -> bool {
        self@ == other@
    }
}

impl Default for SnapshotEntry {
    /// The entry of a directory, or of a path whose metadata could not be read.
    fn default() -> (r: SnapshotEntry)
        ensures
            r@.metadata.is_none(),
            r@.fingerprint.is_none(),
            r@.target.is_none(),
    {
        SnapshotEntry { metadata: None, fingerprint: None, target: None }
    }
}

/// The map that a list of (path, entry) pairs gives, a later pair overriding an earlier one.
pub open spec fn entry_map(v: Seq<(String, SnapshotEntry)>) -> Map<Seq<char>, EntryView>
    decreases v.len(),
{
    if v.len() == 0 {
        Map::empty()
    } else {
        entry_map(v.drop_last()).insert(v.last().0@, v.last().1@)
    }
}

/// No path occurs twice.
pub open spec fn unique_paths(v: Seq<(String, SnapshotEntry)>) -> bool {
    forall|i: int, j: int| 0 <= i < v.len() && 0 <= j < v.len() && v[i].0@ == v[j].0@ ==> i == j
}

proof fn lemma_entry_map(v: Seq<(String, SnapshotEntry)>)
    requires
        unique_paths(v),
    ensures
        forall|i: int|
            #![trigger v[i]]
            0 <= i < v.len() ==> entry_map(v).contains_key(v[i].0@) && entry_map(v)[v[i].0@] == v[i].1@,
        forall|p: Seq<char>|
            #[trigger] entry_map(v).contains_key(p) ==> exists|i: int| #![trigger v[i]] 0 <= i < v.len() && v[i].0@ == p,
    decreases v.len(),
{
    if v.len() > 0 {
        let w = v.drop_last();
        assert(unique_paths(w)) by {
            assert forall|i: int, j: int|
                0 <= i < w.len() && 0 <= j < w.len() && w[i].0@ == w[j].0@ implies i == j by {
                assert(w[i] == v[i] && w[j] == v[j]);
            }
        }
        lemma_entry_map(w);
        assert(entry_map(v) == entry_map(w).insert(v.last().0@, v.last().1@));
        assert forall|i: int| #![trigger v[i]] 0 <= i < v.len() implies entry_map(v).contains_key(v[i].0@)
            && entry_map(v)[v[i].0@] == v[i].1@ by {
            if i < v.len() - 1 {
                assert(w[i] == v[i]);
                assert(v[i].0@ != v.last().0@);
                assert(entry_map(w).contains_key(w[i].0@));
            }
        }
        assert forall|p: Seq<char>| #[trigger] entry_map(v).contains_key(p) implies exists|i: int|
            #![trigger v[i]] 0 <= i < v.len() && v[i].0@ == p by {
            if p != v.last().0@ {
                assert(entry_map(w).contains_key(p));
                let i = choose|i: int| #![trigger w[i]] 0 <= i < w.len() && w[i].0@ == p;
                assert(w[i] == v[i]);
            } else {
                assert(v[v.len() - 1].0@ == p);
            }
        }
    }
}

/// The entries of a snapshot: a map from relative paths to entries.
pub struct Entries {
    items: Vec<(String, SnapshotEntry)>,
}

impl View for Entries {
    type V = Map<Seq<char>, EntryView>;

    closed spec fn view(&self) -> Map<Seq<char>, EntryView> {
        entry_map(self.items@)
    }
}

impl Entries {
    /// Each path is held once.
    pub closed spec fn wf(&self) -> bool {
        unique_paths(self.items@)
    }

    /// No entries.
    pub fn new() -> (r: Entries)
        ensures
            r.wf(),
            r@ == Map::<Seq<char>, EntryView>::empty(),
    {
        Entries { items: Vec::new() }
    }

    /// Position of `path` among the items.
    fn find(&self, path: &String) -> (r: Option<usize>)
        requires
            self.wf(),
        ensures
            match r {
                Some(i) => i < self.items@.len() && self.items@[i as int].0@ == path@
                    && self@.contains_key(path@) && self@[path@] == self.items@[i as int].1@,
                None => !self@.contains_key(path@),
            },
    {
        proof {
            lemma_entry_map(self.items@);
        }
        let mut i: usize = 0;
        while i < self.items.len()
            invariant
                i <= self.items@.len(),
                unique_paths(self.items@),
                forall|j: int| 0 <= j < i ==> self.items@[j].0@ != path@,
            decreases self.items@.len() - i,
        {
            if self.items[i].0 == *path {
                proof {
                    lemma_entry_map(self.items@);
                    assert(self.items@[i as int].0@ == path@);
                }
                return Some(i);
            }
            i = i + 1;
        }
        proof {
            lemma_entry_map(self.items@);
        }
        None
    }

    /// The entry at `path`.
    pub fn get(&self, path: &String) -> (r: Option<&SnapshotEntry>)
        requires
            self.wf(),
        ensures
            match r {
                Some(e) => self@.contains_key(path@) && self@[path@] == e@,
                None => !self@.contains_key(path@),
            },
    {
        match self.find(path) {
            Some(i) => Some(&self.items[i].1),
            None => None,
        }
    }

    /// Sets the entry at `path`, replacing what was there.
    pub fn insert(&mut self, path: String, entry: SnapshotEntry)
        requires
            old(self).wf(),
        ensures
            final(self).wf(),
            final(self)@ == old(self)@.insert(path@, entry@),
    {
        let ghost key = path@;
        let ghost value = entry@;
        match self.find(&path) {
            Some(i) => {
                let ghost before = self.items@;
                self.items.set(i, (path, entry));
                proof {
                    let after = self.items@;
                    assert(unique_paths(after)) by {
                        assert forall|a: int, b: int|
                            0 <= a < after.len() && 0 <= b < after.len() && after[a].0@ == after[b].0@ implies a
                            == b by {
                            assert(after[a].0@ == before[a].0@);
                            assert(after[b].0@ == before[b].0@);
                        }
                    }
                    lemma_entry_map(before);
                    lemma_entry_map(after);
                    assert forall|p: Seq<char>| #[trigger] entry_map(after).contains_key(p) <==> entry_map(
                        before,
                    ).insert(key, value).contains_key(p) by {
                        if entry_map(after).contains_key(p) {
                            let j = choose|j: int| 0 <= j < after.len() && after[j].0@ == p;
                            assert(before[j].0@ == p);
                        }
                        if entry_map(before).contains_key(p) {
                            let j = choose|j: int| 0 <= j < before.len() && before[j].0@ == p;
                            assert(after[j].0@ == p);
                        }
                        if p == key {
                            assert(after[i as int].0@ == p);
                        }
                    }
                    assert forall|p: Seq<char>| #[trigger] entry_map(after).contains_key(p) implies entry_map(
                        after,
                    )[p] == entry_map(before).insert(key, value)[p] by {
                        let j = choose|j: int| 0 <= j < after.len() && after[j].0@ == p;
                        if j != i {
                            assert(after[j] == before[j]);
                        }
                    }
                    assert(entry_map(after) =~= entry_map(before).insert(key, value));
                }
            },
            None => {
                let ghost before = self.items@;
                self.items.push((path, entry));
                proof {
                    let after = self.items@;
                    assert(after.drop_last() =~= before);
                    lemma_entry_map(before);
                    assert forall|a: int, b: int|
                        0 <= a < after.len() && 0 <= b < after.len() && after[a].0@ == after[b].0@ implies a
                        == b by {
                        if a < before.len() && b < before.len() {
                            assert(after[a] == before[a] && after[b] == before[b]);
                        } else if a < before.len() {
                            assert(after[a] == before[a]);
                        } else if b < before.len() {
                            assert(after[b] == before[b]);
                        }
                    }
                }
            },
        }
    }

    /// The number of paths.
    pub fn len(&self) -> (r: usize)
        requires
            self.wf(),
        ensures
            r == self@.dom().len(),
    {
        proof {
            lemma_entries_len(self.items@);
        }
        self.items.len()
    }
}

proof fn lemma_entries_len(v: Seq<(String, SnapshotEntry)>)
    requires
        unique_paths(v),
    ensures
        entry_map(v).dom().finite(),
        entry_map(v).dom().len() == v.len(),
    decreases v.len(),
{
    if v.len() > 0 {
        let w = v.drop_last();
        assert(unique_paths(w)) by {
            assert forall|i: int, j: int|
                0 <= i < w.len() && 0 <= j < w.len() && w[i].0@ == w[j].0@ implies i == j by {
                assert(w[i] == v[i] && w[j] == v[j]);
            }
        }
        lemma_entries_len(w);
        lemma_entry_map(w);
        if entry_map(w).contains_key(v.last().0@) {
            let i = choose|i: int| 0 <= i < w.len() && w[i].0@ == v.last().0@;
            assert(w[i] == v[i]);
        }
    }
}

/// The last component of a path: trailing `/` are ignored, and an empty
/// component, `.` or `..` there gives none.
pub open spec fn file_name_spec(p: Seq<char>) -> Option<Seq<char>> {
    let q = strip_trailing(p, '/');
    let last = q.subrange(last_index_of(q, '/') + 1, q.len() as int);
    if last.len() == 0 || last == seq!['.'] || last == seq!['.', '.'] {
        None
    } else {
        Some(last)
    }
}

/// The last component of the path `p`.
pub fn file_name(p: &str) -> (r: Option<String>)
    ensures
        opt_view(r) == file_name_spec(p@),
{
    let n = p.unicode_len();
    let mut end: usize = n;
    assert(p@.subrange(0, n as int) =~= p@);
    while end > 0 && p.get_char(end - 1) == '/'
        invariant
            end <= n,
            n == p@.len(),
            strip_trailing(p@, '/') == strip_trailing(p@.subrange(0, end as int), '/'),
        decreases end,
    {
        assert(p@.subrange(0, end as int).drop_last() =~= p@.subrange(0, end - 1));
        end = end - 1;
    }
    let q = substring(p, 0, end);
    assert(q@ == strip_trailing(p@, '/'));
    proof {
        lemma_last_index_of(q@, '/');
    }
    let start = match rfind_char(q.as_str(), '/') {
        Some(k) => k + 1,
        None => 0,
    };
    let last = substring(q.as_str(), start, end);
    let len = last.unicode_len();
    if len == 0 {
        return None;
    }
    let first = last.get_char(0);
    if len == 1 && first == '.' {
        assert(last@ =~= seq!['.']);
        return None;
    }
    if len == 2 && first == '.' && last.get_char(1) == '.' {
        assert(last@ =~= seq!['.', '.']);
        return None;
    }
    assert(last@ != seq!['.']) by {
        if len == 1 {
            assert(seq!['.'][0] == '.');
        }
    }
    assert(last@ != seq!['.', '.']) by {
        if len == 2 {
            assert(seq!['.', '.'][0] == '.');
            assert(seq!['.', '.'][1] == '.');
        }
    }
    Some(last)
}

/// A directory tree captured for a build, and where it lands in the image.
#[derive(Clone)]
pub struct Snapshot {
    /// The directory on the local filesystem.
    pub path: String,
    /// The directory inside the image's root filesystem.
    pub dest_dir: String,
}

/// Where a copy into a snapshot goes: the directory to create, and the file to write.
pub struct CopyTarget {
    pub directory: String,
    pub file: String,
}

/// The directory that a copy to `dst` creates below `root`.
pub open spec fn copy_dir_spec(root: Seq<char>, dst: crate::instructions::DestView) -> Seq<char> {
    match dst.directory {
        Some(d) => join_spec(root, d),
        None => root,
    }
}

/// The file that a copy of `src` to `dst` writes below `root`: the destination's
/// file name, or else the source's own; none when neither exists.
pub open spec fn copy_file_spec(
    root: Seq<char>,
    src: Seq<char>,
    dst: crate::instructions::DestView,
) -> Option<Seq<char>> {
    match dst.file_name {
        Some(f) => Some(join_spec(copy_dir_spec(root, dst), f)),
        None => match file_name_spec(src) {
            Some(b) => Some(join_spec(copy_dir_spec(root, dst), b)),
            None => None,
        },
    }
}

impl Snapshot {
    /// A snapshot of the directory `path`, landing at the image root.
    pub fn init(path: String) -> (r: Result<Snapshot, ImageError>)
        ensures
            r.is_ok(),
            r->Ok_0.path@ == path@,
            r->Ok_0.dest_dir@ == seq!['/'],
    {
        let root = "/";
        proof {
            reveal_strlit("/");
        }
        Ok(Snapshot { path, dest_dir: root.to_owned() })
    }

    /// The snapshot that a copy of this one's tree at `path` forms: it lands where this one does.
    pub fn forked(&self, path: String) -> (r: Snapshot)
        ensures
            r.path@ == path@,
            r.dest_dir@ == self.dest_dir@,
    {
        Snapshot { path, dest_dir: self.dest_dir.clone() }
    }

    /// The local path of `path` inside this snapshot.
    pub fn generate_path(&self, path: &String) -> (r: String)
        ensures
            r@ == join_spec(self.path@, path@),
    {
        join_path(self.path.as_str(), path.as_str())
    }

    /// Where a copy of the local file `src` to `dst` goes inside this snapshot;
    /// fails with `InvalidDestination` when neither `dst` nor `src` gives a file name.
    pub fn copy_in_target(&self, src: &str, dst: &Dest) -> (r: Result<CopyTarget, ImageError>)
        ensures
            match r {
                Ok(t) => t.directory@ == copy_dir_spec(self.path@, dst@) && copy_file_spec(
                    self.path@,
                    src@,
                    dst@,
                ) == Some(t.file@),
                Err(e) => copy_file_spec(self.path@, src@, dst@).is_none() && e
                    == ImageError::InvalidDestination,
            },
    {
        let directory = match &dst.directory {
            Some(d) => join_path(self.path.as_str(), d.as_str()),
            None => self.path.clone(),
        };
        let name = match &dst.file_name {
            Some(f) => f.clone(),
            None => match file_name(src) {
                Some(b) => b,
                None => {
                    return Err(ImageError::InvalidDestination);
                },
            },
        };
        let file = join_path(directory.as_str(), name.as_str());
        Ok(CopyTarget { directory, file })
    }

    /// The changes from this snapshot, whose entries are `mine`, to `new_other`,
    /// whose entries are `theirs`; they come from and land where `new_other` does.
    pub fn diff(&self, new_other: &Snapshot, mine: &Entries, theirs: &Entries) -> (r: ChangeSet)
        requires
            mine.wf(),
            theirs.wf(),
        ensures
            r.source_dir@ == new_other.path@,
            r.dest_dir@ == strip_leading(new_other.dest_dir@, '/'),
            forall|c: ChangeView|
                #[trigger] changes_view(r.items@).contains(c) <==> diff_set(mine@, theirs@).contains(c),
            changes_view(r.items@).no_duplicates(),
    {
        let changes = diff_entries(mine, theirs);
        ChangeSet::new(new_other.path.clone(), new_other.dest_dir.clone(), changes)
    }
}

/// The changes that lead from the entries `a` to the entries `b`: a path only
/// in `b` is added, a path only in `a` removed, and a path in both whose
/// entries differ modified.
pub open spec fn diff_set(a: Map<Seq<char>, EntryView>, b: Map<Seq<char>, EntryView>) -> Set<ChangeView> {
    Set::new(
        |c: ChangeView|
            match c.kind {
                ChangeKind::Added => b.contains_key(c.path) && !a.contains_key(c.path),
                ChangeKind::Removed => a.contains_key(c.path) && !b.contains_key(c.path),
                ChangeKind::Modified => a.contains_key(c.path) && b.contains_key(c.path) && a[c.path]
                    != b[c.path],
            },
    )
}

/// The same change seen from the other side: added and removed trade places.
pub open spec fn swap_change(c: ChangeView) -> ChangeView {
    ChangeView {
        kind: match c.kind {
            ChangeKind::Added => ChangeKind::Removed,
            ChangeKind::Removed => ChangeKind::Added,
            ChangeKind::Modified => ChangeKind::Modified,
        },
        path: c.path,
    }
}

/// A state compared with itself has no changes, so a list that holds exactly
/// those changes is empty.
pub proof fn lemma_diff_self(m: Map<Seq<char>, EntryView>)
    ensures
        diff_set(m, m) == Set::<ChangeView>::empty(),
        forall|s: Seq<ChangeView>|
            (forall|c: ChangeView| #[trigger] s.contains(c) <==> diff_set(m, m).contains(c)) ==> s.len()
                == 0,
{
    assert(diff_set(m, m) =~= Set::<ChangeView>::empty());
    assert forall|s: Seq<ChangeView>|
        (forall|c: ChangeView| #[trigger] s.contains(c) <==> diff_set(m, m).contains(c)) implies s.len()
        == 0 by {
        if s.len() > 0 {
            assert(s.contains(s[0]));
        }
    }
}

/// Comparing `b` with `a` gives the changes of comparing `a` with `b`, with
/// added and removed swapped and the same modified paths.
pub proof fn lemma_diff_swap(a: Map<Seq<char>, EntryView>, b: Map<Seq<char>, EntryView>)
    ensures
        forall|c: ChangeView| #[trigger] diff_set(b, a).contains(c) <==> diff_set(a, b).contains(swap_change(c)),
        forall|p: Seq<char>|
            diff_set(b, a).contains(change_of(ChangeKind::Modified, p)) <==> diff_set(
                a,
                b,
            ).contains(change_of(ChangeKind::Modified, p)),
{
}

/// The entries that replaying `changes` over the entries `base` leaves, with
/// the entries of added and modified paths taken from `top`: removed paths
/// go, added paths come, and modified paths take their new entry.
pub open spec fn replay(
    base: Map<Seq<char>, EntryView>,
    top: Map<Seq<char>, EntryView>,
    changes: Set<ChangeView>,
) -> Map<Seq<char>, EntryView> {
    Map::new(
        |p: Seq<char>|
            (base.contains_key(p) && !changes.contains(change_of(ChangeKind::Removed, p)))
                || changes.contains(change_of(ChangeKind::Added, p)),
        |p: Seq<char>|
            if changes.contains(change_of(ChangeKind::Added, p)) || changes.contains(
                change_of(ChangeKind::Modified, p),
            ) {
                top[p]
            } else {
                base[p]
            },
    )
}

/// Replaying the changes from `a` to `b` over `a` gives `b`: the layer of a
/// diff, laid over the old state, reproduces the new one.
pub proof fn lemma_replay_diff(a: Map<Seq<char>, EntryView>, b: Map<Seq<char>, EntryView>)
    ensures
        replay(a, b, diff_set(a, b)) == b,
{
    let r = replay(a, b, diff_set(a, b));
    assert forall|p: Seq<char>| #[trigger] r.contains_key(p) <==> b.contains_key(p) by {
        assert(diff_set(a, b).contains(change_of(ChangeKind::Removed, p)) == (
        a.contains_key(p) && !b.contains_key(p)));
        assert(diff_set(a, b).contains(change_of(ChangeKind::Added, p)) == (
        b.contains_key(p) && !a.contains_key(p)));
    }
    assert forall|p: Seq<char>| #[trigger] r.contains_key(p) implies r[p] == b[p] by {
        assert(diff_set(a, b).contains(change_of(ChangeKind::Added, p)) == (
        b.contains_key(p) && !a.contains_key(p)));
        assert(diff_set(a, b).contains(change_of(ChangeKind::Modified, p)) == (
        a.contains_key(p) && b.contains_key(p) && a[p] != b[p]));
    }
    assert(r =~= b);
}

proof fn lemma_push_contains(s: Seq<ChangeView>, x: ChangeView)
    ensures
        forall|c: ChangeView| #[trigger] s.push(x).contains(c) <==> (s.contains(c) || c == x),
        s.no_duplicates() && !s.contains(x) ==> s.push(x).no_duplicates(),
{
    assert forall|c: ChangeView| #[trigger] s.push(x).contains(c) <==> (s.contains(c) || c == x) by {
        if s.contains(c) {
            let i = choose|i: int| 0 <= i < s.len() && s[i] == c;
            assert(s.push(x)[i] == c);
        }
        if c == x {
            assert(s.push(x)[s.len() as int] == c);
        }
        if s.push(x).contains(c) && c != x {
            let i = choose|i: int| 0 <= i < s.push(x).len() && s.push(x)[i] == c;
            assert(s[i] == c);
        }
    }
    if s.no_duplicates() && !s.contains(x) {
        assert forall|i: int, j: int|
            0 <= i < s.push(x).len() && 0 <= j < s.push(x).len() && i != j implies s.push(x)[i]
            != s.push(x)[j] by {
            if i < s.len() && j < s.len() {
            } else if i < s.len() {
                assert(s.contains(s[i]));
            } else if j < s.len() {
                assert(s.contains(s[j]));
            }
        }
    }
}

/// Some item before `i` has path `p`.
spec fn seen(v: Seq<(String, SnapshotEntry)>, i: int, p: Seq<char>) -> bool {
    exists|j: int| 0 <= j < i && #[trigger] v[j].0@ == p
}

fn push_change(out: &mut Vec<Change>, c: Change)
    requires
        changes_view(old(out)@).no_duplicates(),
        !changes_view(old(out)@).contains(c@),
    ensures
        changes_view(final(out)@) == changes_view(old(out)@).push(c@),
        changes_view(final(out)@).no_duplicates(),
        forall|x: ChangeView| #[trigger] changes_view(final(out)@).contains(x) <==> (changes_view(old(out)@).contains(x) || x == c@),
{
    let ghost before = changes_view(out@);
    let ghost cv = c@;
    out.push(c);
    proof {
        assert(changes_view(out@) =~= before.push(cv));
        lemma_push_contains(before, cv);
    }
}

/// The changes that lead from the entries `a` to the entries `b`, each once, in no stated order.
pub fn diff_entries(a: &Entries, b: &Entries) -> (r: Vec<Change>)
    requires
        a.wf(),
        b.wf(),
    ensures
        forall|c: ChangeView| #[trigger] changes_view(r@).contains(c) <==> diff_set(a@, b@).contains(c),
        changes_view(r@).no_duplicates(),
{
    proof {
        lemma_entry_map(a.items@);
        lemma_entry_map(b.items@);
    }
    let ghost av = a.items@;
    let ghost bv = b.items@;
    let mut out: Vec<Change> = Vec::new();
    assert(changes_view(out@) =~= Seq::<ChangeView>::empty());
    let mut i: usize = 0;
    while i < a.items.len()
        invariant
            av == a.items@,
            a.wf(),
            b.wf(),
            i <= av.len(),
            changes_view(out@).no_duplicates(),
            forall|c: ChangeView|
                #[trigger] changes_view(out@).contains(c) <==> (c.kind != ChangeKind::Added && diff_set(
                    a@,
                    b@,
                ).contains(c) && seen(av, i as int, c.path)),
        decreases av.len() - i,
    {
        proof {
            lemma_entry_map(av);
        }
        let p = &a.items[i].0;
        let ghost pv = p@;
        assert(a@.contains_key(pv) && a@[pv] == av[i as int].1@);
        assert(!seen(av, i as int, pv)) by {
            if seen(av, i as int, pv) {
                let j = choose|j: int| 0 <= j < i && #[trigger] av[j].0@ == pv;
            }
        }
        assert forall|c: ChangeView| #[trigger] changes_view(out@).contains(c) implies c.path != pv by {}
        let ghost old_out = changes_view(out@);
        match b.get(p) {
            None => {
                push_change(&mut out, Change::Removed(p.clone()));
            },
            Some(eb) => {
                if !a.items[i].1.same(eb) {
                    push_change(&mut out, Change::Modified(p.clone()));
                }
            },
        }
        proof {
            assert forall|c: ChangeView| #[trigger] changes_view(out@).contains(c) <==> (c.kind
                != ChangeKind::Added && diff_set(a@, b@).contains(c) && seen(av, i + 1, c.path)) by {
                if seen(av, i + 1, c.path) && c.path != pv {
                    let j = choose|j: int| 0 <= j < i + 1 && #[trigger] av[j].0@ == c.path;
                    assert(seen(av, i as int, c.path));
                }
                if seen(av, i as int, c.path) {
                    let j = choose|j: int| 0 <= j < i && #[trigger] av[j].0@ == c.path;
                    assert(seen(av, i + 1, c.path));
                }
                if c.path == pv {
                    assert(av[i as int].0@ == c.path);
                }
            }
        }
        i = i + 1;
    }
    let mut j: usize = 0;
    while j < b.items.len()
        invariant
            av == a.items@,
            bv == b.items@,
            a.wf(),
            b.wf(),
            j <= bv.len(),
            changes_view(out@).no_duplicates(),
            forall|c: ChangeView|
                #[trigger] changes_view(out@).contains(c) <==> (diff_set(a@, b@).contains(c) && (
                c.kind != ChangeKind::Added || seen(bv, j as int, c.path))),
        decreases bv.len() - j,
    {
        proof {
            lemma_entry_map(bv);
        }
        let p = &b.items[j].0;
        let ghost pv = p@;
        assert(b@.contains_key(pv));
        assert(!seen(bv, j as int, pv)) by {
            if seen(bv, j as int, pv) {
                let k = choose|k: int| 0 <= k < j && #[trigger] bv[k].0@ == pv;
            }
        }
        if a.get(p).is_none() {
            push_change(&mut out, Change::Added(p.clone()));
        }
        proof {
            assert forall|c: ChangeView| #[trigger] changes_view(out@).contains(c) <==> (diff_set(
                a@,
                b@,
            ).contains(c) && (c.kind != ChangeKind::Added || seen(bv, j + 1, c.path))) by {
                if seen(bv, j + 1, c.path) && c.path != pv {
                    let k = choose|k: int| 0 <= k < j + 1 && #[trigger] bv[k].0@ == c.path;
                    assert(seen(bv, j as int, c.path));
                }
                if seen(bv, j as int, c.path) {
                    let k = choose|k: int| 0 <= k < j && #[trigger] bv[k].0@ == c.path;
                    assert(seen(bv, j + 1, c.path));
                }
                if c.path == pv {
                    assert(bv[j as int].0@ == c.path);
                }
            }
        }
        j = j + 1;
    }
    proof {
        lemma_entry_map(bv);
        assert forall|c: ChangeView| #[trigger] changes_view(out@).contains(c) <==> diff_set(a@, b@).contains(c) by {
            if diff_set(a@, b@).contains(c) && c.kind == ChangeKind::Added {
                let k = choose|k: int| 0 <= k < bv.len() && #[trigger] bv[k].0@ == c.path;
                assert(seen(bv, bv.len() as int, c.path));
            }
        }
    }
    out
}

} // verus!
