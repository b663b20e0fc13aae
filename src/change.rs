//! Changes between two snapshots, their order, and change sets.
use vstd::prelude::*;
use vstd::multiset::Multiset;
use vstd::relations::{sorted_by, total_ordering};

use crate::paths::strip_leading_slashes;
use crate::text::{lemma_seq_lt_irreflexive, lemma_seq_lt_total, lemma_seq_lt_transitive, seq_lt, str_lt, strip_leading};

verus! {

/// The kind of a change.
#[derive(Debug, Clone, Copy, PartialEq, Eq, Structural)]
pub enum ChangeKind {
    Added,
    Modified,
    Removed,
}

/// One path that differs between two snapshots, relative to the snapshot root.
#[derive(Debug)]
pub enum Change {
    Added(String),
    Modified(String),
    Removed(String),
}

/// The mathematical value of a [`Change`].
pub struct ChangeView {
    pub kind: ChangeKind,
    pub path: Seq<char>,
}

impl View for Change {
    type V = ChangeView;

    open spec fn view(&self) -> ChangeView {
        match self {
            Change::Added(p) => ChangeView { kind: ChangeKind::Added, path: p@ },
            Change::Modified(p) => ChangeView { kind: ChangeKind::Modified, path: p@ },
            Change::Removed(p) => ChangeView { kind: ChangeKind::Removed, path: p@ },
        }
    }
}

/// The change of kind `kind` at `path`.
pub open spec fn change_of(kind: ChangeKind, path: Seq<char>) -> ChangeView {
    ChangeView { kind, path }
}

/// The values of a list of changes.
pub open spec fn changes_view(s: Seq<Change>) -> Seq<ChangeView> {
    s.map_values(|c: Change| c@)
}

/// Position of a kind in the order of changes: added, then modified, then removed.
pub open spec fn kind_rank(k: ChangeKind) -> int {
    match k {
        ChangeKind::Added => 0,
        ChangeKind::Modified => 1,
        ChangeKind::Removed => 2,
    }
}

/// The order of changes in a layer: by kind, then by path.
pub open spec fn change_le(a: ChangeView, b: ChangeView) -> bool {
    kind_rank(a.kind) < kind_rank(b.kind) || (kind_rank(a.kind) == kind_rank(b.kind) && !seq_lt(
        b.path,
        a.path,
    ))
}

/// [`change_le`] as a relation.
pub open spec fn change_order() -> spec_fn(ChangeView, ChangeView) -> bool {
    |a: ChangeView, b: ChangeView| change_le(a, b)
}

/// The changes of `s` in layer order.
pub open spec fn sorted_changes(s: Seq<ChangeView>) -> Seq<ChangeView> {
    s.sort_by(change_order())
}

/// The order of changes is total.
pub proof fn lemma_change_order_total()
    ensures
        total_ordering(change_order()),
{
    let leq = change_order();
    assert forall|x: ChangeView| #[trigger] leq(x, x) by {
        lemma_seq_lt_irreflexive(x.path);
    }
    assert forall|x: ChangeView, y: ChangeView| #[trigger] leq(x, y) && #[trigger] leq(y, x) implies x
        == y by {
        lemma_seq_lt_total(x.path, y.path);
    }
    assert forall|x: ChangeView, y: ChangeView, z: ChangeView| #[trigger] leq(x, y) && #[trigger] leq(
        y,
        z,
    ) implies leq(x, z) by {
        lemma_seq_lt_total(x.path, y.path);
        lemma_seq_lt_total(y.path, z.path);
        lemma_seq_lt_total(x.path, z.path);
        if seq_lt(z.path, x.path) && kind_rank(x.kind) == kind_rank(z.kind) {
            if seq_lt(y.path, x.path) {
                lemma_seq_lt_transitive(z.path, x.path, y.path);
            } else if x.path == y.path {
            } else {
                lemma_seq_lt_transitive(x.path, y.path, z.path);
                lemma_seq_lt_irreflexive(x.path);
                lemma_seq_lt_transitive(x.path, z.path, x.path);
            }
        }
    }
    assert forall|x: ChangeView, y: ChangeView| #[trigger] leq(x, y) || #[trigger] leq(y, x) by {
        lemma_seq_lt_total(x.path, y.path);
    }
}

impl Change {
    /// The path that the change is about.
    pub fn path(&self) -> (r: &String)
        ensures
            r@ == self@.path,
    {
        match self {
            Change::Added(p) => p,
            Change::Modified(p) => p,
            Change::Removed(p) => p,
        }
    }

    /// The kind of the change.
    pub fn kind(&self) -> (r: ChangeKind)
        ensures
            r == self@.kind,
    {
        match self {
            Change::Added(_) => ChangeKind::Added,
            Change::Modified(_) => ChangeKind::Modified,
            Change::Removed(_) => ChangeKind::Removed,
        }
    }
}

fn kind_rank_exec(k: ChangeKind) -> (r: u8)
    ensures
        r as int == kind_rank(k),
{
    match k {
        ChangeKind::Added => 0,
        ChangeKind::Modified => 1,
        ChangeKind::Removed => 2,
    }
}

/// Whether `a` may stand before `b` in a layer.
pub fn change_leq(a: &Change, b: &Change) -> (r: bool)
    ensures
        r == change_le(a@, b@),
{
    let ra = kind_rank_exec(a.kind());
    let rb = kind_rank_exec(b.kind());
    ra < rb || (ra == rb && !str_lt(b.path().as_str(), a.path().as_str()))
}

/// Sorts changes into layer order: added, modified, removed, each by path.
pub fn sort_changes(items: Vec<Change>) -> (r: Vec<Change>)
    ensures
        changes_view(r@) == sorted_changes(changes_view(items@)),
{
    broadcast use vstd::seq_lib::group_to_multiset_ensures, vstd::multiset::group_multiset_axioms;

    let ghost leq = change_order();
    proof {
        lemma_change_order_total();
    }
    let ghost input = changes_view(items@);
    let mut rest = items;
    let mut out: Vec<Change> = Vec::new();
    assert(changes_view(out@) =~= Seq::<ChangeView>::empty());
    assert(changes_view(rest@) == input);
    assert(changes_view(out@).to_multiset() =~= Multiset::empty());
    assert(Multiset::<ChangeView>::empty().add(input.to_multiset()) =~= input.to_multiset());
    while rest.len() > 0
        invariant
            leq == change_order(),
            total_ordering(leq),
            sorted_by(changes_view(out@), leq),
            changes_view(out@).to_multiset().add(changes_view(rest@).to_multiset()) == input.to_multiset(),
        decreases rest.len(),
    {
        let ghost rest_before = changes_view(rest@);
        let x = rest.pop().unwrap();
        assert(rest_before =~= changes_view(rest@).push(x@));
        let ghost before = changes_view(out@);
        let mut pos: usize = 0;
        let mut going = true;
        while going && pos < out.len()
            invariant
                pos <= out@.len(),
                before == changes_view(out@),
                leq == change_order(),
                forall|k: int| 0 <= k < pos ==> leq(#[trigger] before[k], x@),
                !going ==> pos < out@.len() && !leq(before[pos as int], x@),
            decreases out@.len() - pos + (if going { 1int } else { 0int }),
        {
            assert(before[pos as int] == out@[pos as int]@);
            if change_leq(&out[pos], &x) {
                pos = pos + 1;
            } else {
                going = false;
            }
        }
        proof {
            if pos < out@.len() {
                assert(!leq(before[pos as int], x@));
                assert forall|k: int| pos <= k < before.len() implies !leq(#[trigger] before[k], x@) by {
                    if leq(before[k], x@) {
                        assert(leq(before[pos as int], before[k]));
                    }
                }
            }
        }
        out.insert(pos, x);
        proof {
            let after = changes_view(out@);
            assert(after =~= before.insert(pos as int, x@));
            assert forall|a: int, b: int| 0 <= a < b < after.len() implies leq(
                #[trigger] after[a],
                #[trigger] after[b],
            ) by {
                if b < pos {
                } else if b == pos {
                } else if a < pos {
                    assert(leq(before[a], x@));
                    assert(!leq(before[b - 1], x@));
                    assert(leq(x@, before[b - 1]));
                } else if a == pos {
                    assert(!leq(before[b - 1], x@));
                } else {
                }
            }
            vstd::seq_lib::to_multiset_insert(before, pos as int, x@);
            vstd::seq_lib::to_multiset_build(changes_view(rest@), x@);
        }
    }
    proof {
        assert(changes_view(rest@) =~= Seq::<ChangeView>::empty());
        assert(changes_view(out@).to_multiset().add(Multiset::empty()) =~= changes_view(out@).to_multiset());
        assert(changes_view(out@).to_multiset() =~= input.to_multiset());
        input.lemma_sort_by_ensures(leq);
        vstd::seq_lib::lemma_sorted_unique(changes_view(out@), input.sort_by(leq), leq);
    }
    out
}

/// The changes between two snapshots, with where they come from and where they go.
#[derive(Debug)]
pub struct ChangeSet {
    /// The directory, on the local filesystem, that holds the new state.
    pub source_dir: String,
    /// The directory, within the image's root filesystem, that the changes land in; never starts with `/`.
    pub dest_dir: String,
    /// The changes.
    pub items: Vec<Change>,
}

impl ChangeSet {
    /// A change set; the leading `/` of `dest_dir` are dropped, as tar entries are relative.
    pub fn new(source_dir: String, dest_dir: String, items: Vec<Change>) -> (r: ChangeSet)
        ensures
            r.source_dir@ == source_dir@,
            r.dest_dir@ == strip_leading(dest_dir@, '/'),
            r.items@ == items@,
    {
        let dest_dir = strip_leading_slashes(dest_dir.as_str());
        ChangeSet { source_dir, dest_dir, items }
    }
}

} // verus!
