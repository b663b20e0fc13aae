//! What replaying a written layer does to the set of paths below a container root.
use vstd::prelude::*;

use crate::change::{
    change_order, lemma_change_order_total, sorted_changes, ChangeKind, ChangeView,
};
use crate::layer::{
    change_entry, dir_prefixes, layer_plan_spec, whiteout_name, EntryRole, LayerEntryView,
};
use crate::paths::join_spec;
use crate::snapshot::{diff_set, EntryView};
use crate::tar_file::{lemma_whiteout_round_trip, tar_action_spec, whiteout_target, TarEntryType};

verus! {

/// The tar type that a layer entry is read back with: directory entries as
/// directories, everything else as files.
pub open spec fn read_back_type(e: LayerEntryView) -> TarEntryType {
    match e.role {
        EntryRole::Directory => TarEntryType::Directory,
        _ => TarEntryType::File,
    }
}

/// The paths below the container root after the materializer has replayed
/// `plan` over the paths `s`: a removal takes its target out, a write puts it in.
pub open spec fn replay_paths(s: Set<Seq<char>>, plan: Seq<LayerEntryView>) -> Set<Seq<char>>
    decreases plan.len(),
{
    if plan.len() == 0 {
        s
    } else {
        let prev = replay_paths(s, plan.drop_last());
        let (tag, target) = tar_action_spec(Seq::empty(), plan.last().name, read_back_type(plan.last()));
        if tag == 0 {
            prev.remove(target)
        } else if tag == 4 {
            prev
        } else {
            prev.insert(target)
        }
    }
}

/// A path as a snapshot holds it: relative, not empty, without a trailing `/`,
/// and not itself named like a whiteout.
pub open spec fn plain_path(p: Seq<char>) -> bool {
    &&& p.len() > 0
    &&& p[0] != '/'
    &&& p.last() != '/'
    &&& whiteout_target(p).is_none()
}

/// The paths that the changes `cs` add or modify.
pub open spec fn written_set(cs: Seq<ChangeView>) -> Set<Seq<char>> {
    Set::new(|p: Seq<char>| exists|i: int| 0 <= i < cs.len() && cs[i].path == p && cs[i].kind != ChangeKind::Removed)
}

/// The paths that the changes `cs` remove.
pub open spec fn removed_set(cs: Seq<ChangeView>) -> Set<Seq<char>> {
    Set::new(|p: Seq<char>| exists|i: int| 0 <= i < cs.len() && cs[i].path == p && cs[i].kind == ChangeKind::Removed)
}

proof fn lemma_join_empty(p: Seq<char>)
    ensures
        join_spec(Seq::empty(), p) == p,
{
}

proof fn lemma_replay_changes(s: Set<Seq<char>>, source: Seq<char>, cs: Seq<ChangeView>)
    requires
        forall|i: int| 0 <= i < cs.len() ==> plain_path(#[trigger] cs[i].path),
        forall|i: int, j: int|
            0 <= i < cs.len() && 0 <= j < cs.len() && #[trigger] cs[i].kind == ChangeKind::Removed
                && #[trigger] cs[j].kind != ChangeKind::Removed ==> cs[i].path != cs[j].path,
    ensures
        replay_paths(s, cs.map_values(|c: ChangeView| change_entry(source, Seq::empty(), c))) == s.union(
            written_set(cs),
        ).difference(removed_set(cs)),
    decreases cs.len(),
{
    let f = |c: ChangeView| change_entry(source, Seq::empty(), c);
    if cs.len() == 0 {
        assert(s.union(written_set(cs)).difference(removed_set(cs)) =~= s);
    } else {
        let prev = cs.drop_last();
        let c = cs.last();
        lemma_replay_changes(s, source, prev);
        assert(cs.map_values(f).drop_last() =~= prev.map_values(f));
        assert(cs.map_values(f).last() == f(c));
        assert(plain_path(cs[cs.len() - 1].path));
        let before = s.union(written_set(prev)).difference(removed_set(prev));
        lemma_join_empty(c.path);
        if c.kind == ChangeKind::Removed {
            lemma_join_empty(whiteout_name(c.path));
            lemma_whiteout_round_trip(c.path);
            assert(removed_set(cs) =~= removed_set(prev).insert(c.path)) by {
                assert forall|p: Seq<char>| removed_set(cs).contains(p) implies removed_set(prev).insert(c.path).contains(p) by {
                    let i = choose|i: int| 0 <= i < cs.len() && cs[i].path == p && cs[i].kind == ChangeKind::Removed;
                    if i < prev.len() {
                        assert(prev[i] == cs[i]);
                    }
                }
                assert forall|p: Seq<char>| removed_set(prev).insert(c.path).contains(p) implies removed_set(cs).contains(p) by {
                    if p == c.path {
                        assert(cs[cs.len() - 1] == c);
                    } else {
                        let i = choose|i: int| 0 <= i < prev.len() && prev[i].path == p && prev[i].kind == ChangeKind::Removed;
                        assert(prev[i] == cs[i]);
                    }
                }
            }
            assert(written_set(cs) =~= written_set(prev)) by {
                assert forall|p: Seq<char>| written_set(cs).contains(p) implies written_set(prev).contains(p) by {
                    let i = choose|i: int| 0 <= i < cs.len() && cs[i].path == p && cs[i].kind != ChangeKind::Removed;
                    assert(i < prev.len());
                    assert(prev[i] == cs[i]);
                }
                assert forall|p: Seq<char>| written_set(prev).contains(p) implies written_set(cs).contains(p) by {
                    let i = choose|i: int| 0 <= i < prev.len() && prev[i].path == p && prev[i].kind != ChangeKind::Removed;
                    assert(prev[i] == cs[i]);
                }
            }
            assert(before.remove(c.path) =~= s.union(written_set(cs)).difference(removed_set(cs)));
        } else {
            assert(written_set(cs) =~= written_set(prev).insert(c.path)) by {
                assert forall|p: Seq<char>| written_set(cs).contains(p) implies written_set(prev).insert(c.path).contains(p) by {
                    let i = choose|i: int| 0 <= i < cs.len() && cs[i].path == p && cs[i].kind != ChangeKind::Removed;
                    if i < prev.len() {
                        assert(prev[i] == cs[i]);
                    }
                }
                assert forall|p: Seq<char>| written_set(prev).insert(c.path).contains(p) implies written_set(cs).contains(p) by {
                    if p == c.path {
                        assert(cs[cs.len() - 1] == c);
                    } else {
                        let i = choose|i: int| 0 <= i < prev.len() && prev[i].path == p && prev[i].kind != ChangeKind::Removed;
                        assert(prev[i] == cs[i]);
                    }
                }
            }
            assert(removed_set(cs) =~= removed_set(prev)) by {
                assert forall|p: Seq<char>| removed_set(cs).contains(p) implies removed_set(prev).contains(p) by {
                    let i = choose|i: int| 0 <= i < cs.len() && cs[i].path == p && cs[i].kind == ChangeKind::Removed;
                    assert(i < prev.len());
                    assert(prev[i] == cs[i]);
                }
                assert forall|p: Seq<char>| removed_set(prev).contains(p) implies removed_set(cs).contains(p) by {
                    let i = choose|i: int| 0 <= i < prev.len() && prev[i].path == p && prev[i].kind == ChangeKind::Removed;
                    assert(prev[i] == cs[i]);
                }
            }
            assert(!removed_set(prev).contains(c.path)) by {
                if removed_set(prev).contains(c.path) {
                    let i = choose|i: int| 0 <= i < prev.len() && prev[i].path == c.path && prev[i].kind == ChangeKind::Removed;
                    assert(prev[i] == cs[i]);
                    assert(cs[i].kind == ChangeKind::Removed && cs[cs.len() - 1].kind != ChangeKind::Removed);
                }
            }
            assert(before.insert(c.path) =~= s.union(written_set(cs)).difference(removed_set(cs)));
        }
    }
}

/// Replaying the layer written for the changes from the entries `a` to the
/// entries `b` (landing at the image root) over the paths of `a`, by the
/// materializer's own reading of each entry, leaves exactly the paths of `b`.
pub proof fn lemma_layer_replays_diff(
    a: Map<Seq<char>, EntryView>,
    b: Map<Seq<char>, EntryView>,
    items: Seq<ChangeView>,
    source: Seq<char>,
)
    requires
        forall|c: ChangeView| #[trigger] items.contains(c) <==> diff_set(a, b).contains(c),
        forall|p: Seq<char>| #[trigger] a.contains_key(p) ==> plain_path(p),
        forall|p: Seq<char>| #[trigger] b.contains_key(p) ==> plain_path(p),
    ensures
        replay_paths(a.dom(), layer_plan_spec(source, Seq::empty(), items)) == b.dom(),
{
    broadcast use vstd::seq_lib::group_to_multiset_ensures;

    let f = |c: ChangeView| change_entry(source, Seq::empty(), c);
    lemma_change_order_total();
    items.lemma_sort_by_ensures(change_order());
    let sorted = sorted_changes(items);
    assert(dir_prefixes(Seq::<char>::empty()) =~= Seq::<Seq<char>>::empty());
    assert(layer_plan_spec(source, Seq::empty(), items) =~= sorted.map_values(f));
    assert forall|i: int| 0 <= i < sorted.len() implies #[trigger] diff_set(a, b).contains(sorted[i]) by {
        assert(sorted.contains(sorted[i]));
        assert(sorted.to_multiset().count(sorted[i]) > 0);
        assert(items.contains(sorted[i]));
    }
    assert forall|i: int| 0 <= i < sorted.len() implies plain_path(#[trigger] sorted[i].path) by {
        assert(diff_set(a, b).contains(sorted[i]));
    }
    assert forall|i: int, j: int|
        0 <= i < sorted.len() && 0 <= j < sorted.len() && #[trigger] sorted[i].kind == ChangeKind::Removed
            && #[trigger] sorted[j].kind != ChangeKind::Removed implies sorted[i].path != sorted[j].path by {
        assert(diff_set(a, b).contains(sorted[i]));
        assert(diff_set(a, b).contains(sorted[j]));
    }
    lemma_replay_changes(a.dom(), source, sorted);
    assert forall|c: ChangeView| sorted.contains(c) <==> diff_set(a, b).contains(c) by {
        if sorted.contains(c) {
            assert(sorted.to_multiset().count(c) > 0);
        }
        if diff_set(a, b).contains(c) {
            assert(items.contains(c));
            assert(items.to_multiset().count(c) > 0);
        }
    }
    assert forall|p: Seq<char>| #[trigger] b.dom().contains(p) <==> a.dom().union(written_set(sorted)).difference(
        removed_set(sorted),
    ).contains(p) by {
        let added = ChangeView { kind: ChangeKind::Added, path: p };
        let removed = ChangeView { kind: ChangeKind::Removed, path: p };
        if written_set(sorted).contains(p) {
            let i = choose|i: int| 0 <= i < sorted.len() && sorted[i].path == p && sorted[i].kind != ChangeKind::Removed;
            assert(sorted.contains(sorted[i]));
        }
        if removed_set(sorted).contains(p) {
            let i = choose|i: int| 0 <= i < sorted.len() && sorted[i].path == p && sorted[i].kind == ChangeKind::Removed;
            assert(sorted.contains(sorted[i]));
        }
        if b.contains_key(p) && !a.contains_key(p) {
            assert(diff_set(a, b).contains(added));
            assert(sorted.contains(added));
            let i = choose|i: int| 0 <= i < sorted.len() && sorted[i] == added;
            assert(written_set(sorted).contains(p));
        }
        if a.contains_key(p) && !b.contains_key(p) {
            assert(diff_set(a, b).contains(removed));
            assert(sorted.contains(removed));
            let i = choose|i: int| 0 <= i < sorted.len() && sorted[i] == removed;
            assert(removed_set(sorted).contains(p));
        }
    }
    assert(b.dom() =~= a.dom().union(written_set(sorted)).difference(removed_set(sorted)));
}

/// The paths after replaying each plan of `plans` in turn over the paths `s`.
pub open spec fn replay_layers(s: Set<Seq<char>>, plans: Seq<Seq<LayerEntryView>>) -> Set<Seq<char>>
    decreases plans.len(),
{
    if plans.len() == 0 {
        s
    } else {
        replay_paths(replay_layers(s, plans.drop_last()), plans.last())
    }
}

/// The plans of the layers written for the change lists `items`, each from its source directory.
pub open spec fn chain_plans(sources: Seq<Seq<char>>, items: Seq<Seq<ChangeView>>) -> Seq<Seq<LayerEntryView>> {
    Seq::new(items.len(), |i: int| layer_plan_spec(sources[i], Seq::empty(), items[i]))
}

/// For a chain of snapshot states, where the layer `i` holds the changes from
/// state `i` to state `i + 1`, replaying the layers in order over the paths of
/// the first state leaves the paths of the last. A build starts from an empty
/// state, so its image replayed over an empty tree gives the paths of its last
/// snapshot.
pub proof fn lemma_layers_replay_chain(
    states: Seq<Map<Seq<char>, EntryView>>,
    items: Seq<Seq<ChangeView>>,
    sources: Seq<Seq<char>>,
)
    requires
        states.len() == items.len() + 1,
        sources.len() == items.len(),
        forall|i: int, c: ChangeView|
            0 <= i < items.len() ==> (#[trigger] items[i].contains(c) <==> diff_set(states[i], states[i + 1]).contains(c)),
        forall|i: int, p: Seq<char>| 0 <= i < states.len() && #[trigger] states[i].contains_key(p) ==> plain_path(p),
    ensures
        replay_layers(states[0].dom(), chain_plans(sources, items)) == states.last().dom(),
    decreases items.len(),
{
    let n = items.len() as int;
    if n > 0 {
        let states0 = states.drop_last();
        let items0 = items.drop_last();
        let sources0 = sources.drop_last();
        assert forall|i: int, c: ChangeView|
            0 <= i < items0.len() implies (#[trigger] items0[i].contains(c) <==> diff_set(states0[i], states0[i + 1]).contains(c)) by {
            assert(items0[i] == items[i]);
            assert(states0[i] == states[i] && states0[i + 1] == states[i + 1]);
            assert(items[i].contains(c) <==> diff_set(states[i], states[i + 1]).contains(c));
        }
        assert forall|i: int, p: Seq<char>| 0 <= i < states0.len() && #[trigger] states0[i].contains_key(p) implies plain_path(p) by {
            assert(states0[i] == states[i]);
            assert(states[i].contains_key(p));
        }
        lemma_layers_replay_chain(states0, items0, sources0);
        assert(chain_plans(sources, items).drop_last() =~= chain_plans(sources0, items0));
        assert forall|c: ChangeView| #[trigger] items[n - 1].contains(c) <==> diff_set(states[n - 1], states[n]).contains(c) by {
            assert(items[n - 1].contains(c) <==> diff_set(states[n - 1], states[n - 1 + 1]).contains(c));
        }
        assert forall|p: Seq<char>| #[trigger] states[n - 1].contains_key(p) implies plain_path(p) by {
            assert(states[n - 1].contains_key(p));
        }
        assert forall|p: Seq<char>| #[trigger] states[n].contains_key(p) implies plain_path(p) by {
            assert(states[n].contains_key(p));
        }
        lemma_layer_replays_diff(states[n - 1], states[n], items[n - 1], sources[n - 1]);
        assert(states0.last() == states[n - 1]);
    }
}

} // verus!
