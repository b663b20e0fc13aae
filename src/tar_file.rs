//! How the materializer reads the names of tar entries, and what it does with each.
use vstd::prelude::*;

use crate::layer::{whiteout_name, whiteout_prefix, WHITEOUT_PREFIX};
use crate::text::{concat, last_index_of, lemma_last_index_of, rfind_char, starts_with, substring};

verus! {

/// A tar entry read by name: a path to write, or a whiteout that deletes a path.
#[derive(Debug)]
pub enum TarFileTy {
    Update(String),
    Delete(String),
}

/// The path that the entry name `name` deletes: when its last component is
/// `.wh.` followed by at least one character, the name without that `.wh.`.
pub open spec fn whiteout_target(name: Seq<char>) -> Option<Seq<char>> {
    let k = last_index_of(name, '/');
    let base = name.subrange(k + 1, name.len() as int);
    if base.len() > 4 && base.subrange(0, 4) == whiteout_prefix() {
        Some(name.subrange(0, k + 1) + base.subrange(4, base.len() as int))
    } else {
        None
    }
}

impl TarFileTy {
    /// Whether the entry deletes, and the path it writes or deletes.
    pub open spec fn view_parts(&self) -> (bool, Seq<char>) {
        match self {
            TarFileTy::Update(p) => (false, p@),
            TarFileTy::Delete(p) => (true, p@),
        }
    }

    /// Reads an entry name: a whiteout becomes `Delete` of the path it names,
    /// any other name `Update` of itself.
    pub fn classify(val: String) -> (r: TarFileTy)
        ensures
            match whiteout_target(val@) {
                Some(t) => r.view_parts() == (true, t),
                None => r.view_parts() == (false, val@),
            },
    {
        proof {
            lemma_last_index_of(val@, '/');
        }
        let n = val.unicode_len();
        let start = match rfind_char(val.as_str(), '/') {
            Some(k) => k + 1,
            None => 0,
        };
        let base = substring(val.as_str(), start, n);
        let w = WHITEOUT_PREFIX;
        proof {
            reveal_strlit(".wh.");
        }
        assert(w@ =~= whiteout_prefix());
        if base.unicode_len() > 4 && starts_with(base.as_str(), w) {
            let parent = substring(val.as_str(), 0, start);
            let rest = substring(base.as_str(), 4, base.unicode_len());
            TarFileTy::Delete(concat(parent.as_str(), rest.as_str()))
        } else {
            TarFileTy::Update(val)
        }
    }
}

/// The kind of a tar entry, as its header gives it.
#[derive(Debug, Clone, Copy, PartialEq, Eq, Structural)]
pub enum TarEntryType {
    File,
    Directory,
    Symlink,
    Other,
}

/// What the materializer does with one tar entry below the container root.
#[derive(Debug)]
pub enum TarAction {
    /// Delete what is at the path, a file or a directory with all it holds.
    Remove(String),
    /// Write the entry's bytes to the path.
    WriteFile(String),
    /// Create the directory at the path, with its parents.
    CreateDir(String),
    /// Create a symlink at the path with the entry's link text.
    CreateSymlink(String),
    /// Leave the entry aside: its type is not handled.
    Skip,
}

/// The tag of a [`TarAction`] and its path.
pub open spec fn action_parts(a: TarAction) -> (int, Seq<char>) {
    match a {
        TarAction::Remove(p) => (0, p@),
        TarAction::WriteFile(p) => (1, p@),
        TarAction::CreateDir(p) => (2, p@),
        TarAction::CreateSymlink(p) => (3, p@),
        TarAction::Skip => (4, Seq::empty()),
    }
}

/// What an entry does below `base`: a whiteout removes its target whatever
/// the entry's type; any other entry is written by its type, and one of a
/// type that is not handled is skipped.
pub open spec fn action_for(base: Seq<char>, delete: bool, path: Seq<char>, ty: TarEntryType) -> (int, Seq<char>) {
    let target = crate::paths::join_spec(base, path);
    if delete {
        (0, target)
    } else {
        match ty {
            TarEntryType::File => (1, target),
            TarEntryType::Directory => (2, target),
            TarEntryType::Symlink => (3, target),
            TarEntryType::Other => (4, Seq::empty()),
        }
    }
}

/// What the entry named `name` of type `ty` does below `base`.
pub open spec fn tar_action_spec(base: Seq<char>, name: Seq<char>, ty: TarEntryType) -> (int, Seq<char>) {
    match whiteout_target(name) {
        Some(t) => action_for(base, true, t, ty),
        None => action_for(base, false, name, ty),
    }
}

/// Decides what to do with a classified tar entry of type `ty` when a layer is
/// replayed over `base`.
pub fn apply_tar_file(tar_file_ty: TarFileTy, base: &str, ty: TarEntryType) -> (r: TarAction)
    ensures
        action_parts(r) == action_for(base@, tar_file_ty.view_parts().0, tar_file_ty.view_parts().1, ty),
{
    match tar_file_ty {
        TarFileTy::Delete(file) => TarAction::Remove(crate::paths::join_path(base, file.as_str())),
        TarFileTy::Update(file) => {
            let target = crate::paths::join_path(base, file.as_str());
            match ty {
                TarEntryType::File => TarAction::WriteFile(target),
                TarEntryType::Directory => TarAction::CreateDir(target),
                TarEntryType::Symlink => TarAction::CreateSymlink(target),
                TarEntryType::Other => TarAction::Skip,
            }
        },
    }
}

/// What the materializer does with the entry `name` of type `ty` below `base`.
pub fn tar_action(name: String, base: &str, ty: TarEntryType) -> (r: TarAction)
    ensures
        action_parts(r) == tar_action_spec(base@, name@, ty),
{
    apply_tar_file(TarFileTy::classify(name), base, ty)
}

/// A whiteout that the layer writer names for a path is read back by the
/// materializer as a deletion of that same path.
pub proof fn lemma_whiteout_round_trip(p: Seq<char>)
    requires
        p.len() > 0,
        p.last() != '/',
    ensures
        whiteout_target(whiteout_name(p)) == Some(p),
{
    let k = last_index_of(p, '/');
    lemma_last_index_of(p, '/');
    let w = whiteout_name(p);
    let head = p.subrange(0, k + 1);
    let tail = p.subrange(k + 1, p.len() as int);
    assert(w == head + whiteout_prefix() + tail);
    assert(tail.len() > 0);
    let kw = last_index_of(w, '/');
    lemma_last_index_of(w, '/');
    assert forall|j: int| k < j < w.len() implies w[j] != '/' by {
        if j < k + 5 {
            assert(w[j] == whiteout_prefix()[j - k - 1]);
        } else {
            assert(w[j] == tail[j - k - 5]);
        }
    }
    if k >= 0 {
        assert(w[k] == '/');
    }
    assert(kw == k);
    let base = w.subrange(kw + 1, w.len() as int);
    assert(base =~= whiteout_prefix() + tail);
    assert(base.subrange(0, 4) =~= whiteout_prefix());
    assert(base.subrange(4, base.len() as int) =~= tail);
    assert(w.subrange(0, kw + 1) =~= head);
    assert(head + tail =~= p);
}

} // verus!
