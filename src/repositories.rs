//! The repositories index: which manifest each local image reference names.
use vstd::prelude::*;

use crate::digest::{get_digest, strip_algorithm};
use crate::error::ImageError;
use crate::str_map::{distinct_keys, pairs_map, StrMap};
use crate::text::concat;

verus! {

/// The parts of an image reference that the index reads.
#[derive(Debug)]
pub struct ImageRef {
    /// The registry host, or empty.
    pub registry: String,
    /// The repository path.
    pub repository: String,
    /// The whole reference, tag and digest included.
    pub whole: String,
}

/// The repository's full name: `registry/repository`, or the repository alone when the registry is empty.
pub open spec fn full_name_spec(registry: Seq<char>, repository: Seq<char>) -> Seq<char> {
    if registry.len() == 0 {
        repository
    } else {
        registry + seq!['/'] + repository
    }
}

/// The full name of the repository of `image`.
pub fn full_name(image: &ImageRef) -> (r: String)
    ensures
        r@ == full_name_spec(image.registry@, image.repository@),
{
    if image.registry.unicode_len() == 0 {
        image.repository.clone()
    } else {
        let slash = "/";
        proof {
            reveal_strlit("/");
        }
        let with_slash = concat(image.registry.as_str(), slash);
        concat(with_slash.as_str(), image.repository.as_str())
    }
}

/// The digest that the index `m` holds for the reference `whole` of the repository `full`.
pub open spec fn lookup_spec(
    m: Map<Seq<char>, Map<Seq<char>, Seq<char>>>,
    full: Seq<char>,
    whole: Seq<char>,
) -> Option<Seq<char>> {
    if m.contains_key(full) && m[full].contains_key(whole) {
        Some(m[full][whole])
    } else {
        None
    }
}

/// The index `m` with `digest` recorded for the reference `whole` of the repository `full`.
pub open spec fn update_spec(
    m: Map<Seq<char>, Map<Seq<char>, Seq<char>>>,
    full: Seq<char>,
    whole: Seq<char>,
    digest: Seq<char>,
) -> Map<Seq<char>, Map<Seq<char>, Seq<char>>> {
    let inner = if m.contains_key(full) {
        m[full]
    } else {
        Map::empty()
    };
    m.insert(full, inner.insert(whole, digest))
}

/// The index that a nested list of (full name, [(whole reference, digest)])
/// gives, a later entry overriding an earlier one.
pub open spec fn nested_map(v: Seq<(String, Vec<(String, String)>)>) -> Map<Seq<char>, Map<Seq<char>, Seq<char>>>
    decreases v.len(),
{
    if v.len() == 0 {
        Map::empty()
    } else {
        nested_map(v.drop_last()).insert(v.last().0@, pairs_map(v.last().1@))
    }
}

proof fn lemma_nested_map(ov: Seq<(String, StrMap<String>)>, v: Seq<(String, Vec<(String, String)>)>)
    requires
        ov.len() == v.len(),
        forall|i: int| 0 <= i < v.len() ==> #[trigger] ov[i].0@ == v[i].0@ && ov[i].1@ == pairs_map(v[i].1@),
    ensures
        pairs_map(ov) == nested_map(v),
    decreases v.len(),
{
    if v.len() > 0 {
        lemma_nested_map(ov.drop_last(), v.drop_last());
        assert(ov.last().0@ == v.last().0@ && ov.last().1@ == pairs_map(v.last().1@));
    }
}

/// The map from repository full names to the map from whole references to manifest digests.
pub struct Repositories {
    repositories: StrMap<StrMap<String>>,
}

impl View for Repositories {
    type V = Map<Seq<char>, Map<Seq<char>, Seq<char>>>;

    closed spec fn view(&self) -> Map<Seq<char>, Map<Seq<char>, Seq<char>>> {
        self.repositories@
    }
}

impl Default for Repositories {
    fn default() -> (r: Repositories)
        ensures
            r.wf(),
            r@ == Map::<Seq<char>, Map<Seq<char>, Seq<char>>>::empty(),
    {
        Repositories::new()
    }
}

impl Repositories {
    /// The outer map and every inner map hold each key once.
    pub closed spec fn wf(&self) -> bool {
        &&& self.repositories.wf()
        &&& forall|x: (String, StrMap<String>)| #[trigger] self.repositories.pair_seq().contains(x) ==> x.1.wf()
    }

    /// An empty index.
    pub fn new() -> (r: Repositories)
        ensures
            r.wf(),
            r@ == Map::<Seq<char>, Map<Seq<char>, Seq<char>>>::empty(),
    {
        Repositories { repositories: StrMap::new() }
    }

    /// Rebuilds an index from its nested list form, as its JSON file holds it.
    pub fn from_nested(v: Vec<(String, Vec<(String, String)>)>) -> (r: Repositories)
        ensures
            r.wf(),
            r@ == nested_map(v@),
    {
        let ghost vs = v@;
        let mut outer: Vec<(String, StrMap<String>)> = Vec::new();
        let mut rest = v;
        assert(rest@ =~= vs.subrange(0, vs.len() as int));
        while rest.len() > 0
            invariant
                rest@.len() <= vs.len(),
                rest@ == vs.subrange(vs.len() - rest@.len(), vs.len() as int),
                outer@.len() == vs.len() - rest@.len(),
                forall|i: int| 0 <= i < outer@.len() ==> #[trigger] outer@[i].0@ == vs[i].0@ && outer@[i].1@ == pairs_map(vs[i].1@) && outer@[i].1.wf(),
            decreases rest@.len(),
        {
            let ghost t = vs.len() - rest@.len();
            let (k, pairs) = rest.remove(0);
            assert(k == vs[t].0 && pairs == vs[t].1);
            let inner = StrMap::from_pairs(pairs);
            outer.push((k, inner));
            assert(rest@ =~= vs.subrange(t + 1, vs.len() as int));
        }
        let ghost ov = outer@;
        let repositories = StrMap::from_pairs(outer);
        proof {
            lemma_nested_map(ov, vs);
            assert forall|x: (String, StrMap<String>)| #[trigger] repositories.pair_seq().contains(x) implies x.1.wf() by {
                assert(ov.contains(x));
                let i = choose|i: int| 0 <= i < ov.len() && ov[i] == x;
                assert(ov[i].0@ == vs[i].0@);
                assert(ov[i].1.wf());
            }
        }
        Repositories { repositories }
    }

    /// The nested list form of the index, as its JSON file holds it: each
    /// full name once, and each whole reference once within its full name, so
    /// that the JSON object form loses nothing.
    pub fn to_nested(&self) -> (r: Vec<(String, Vec<(String, String)>)>)
        requires
            self.wf(),
        ensures
            nested_map(r@) == self@,
            distinct_keys(r@),
            forall|i: int| 0 <= i < r@.len() ==> distinct_keys(#[trigger] r@[i].1@),
    {
        let mut out: Vec<(String, Vec<(String, String)>)> = Vec::new();
        let n = self.repositories.len();
        proof {
            self.repositories.lemma_pairs();
        }
        let mut i: usize = 0;
        while i < n
            invariant
                self.wf(),
                n == self.repositories.pair_seq().len(),
                i <= n,
                out@.len() == i,
                forall|j: int| 0 <= j < i ==> #[trigger] self.repositories.pair_seq()[j].0@ == out@[j].0@
                    && self.repositories.pair_seq()[j].1@ == pairs_map(out@[j].1@),
                forall|j: int| 0 <= j < i ==> distinct_keys(#[trigger] out@[j].1@),
            decreases n - i,
        {
            let (k, inner) = self.repositories.pair(i);
            assert(self.repositories.pair_seq().contains(self.repositories.pair_seq()[i as int]));
            out.push((k.clone(), inner.to_pairs()));
            i = i + 1;
        }
        proof {
            self.repositories.lemma_pairs();
            lemma_nested_map(self.repositories.pair_seq(), out@);
            assert forall|a: int, b: int|
                0 <= a < out@.len() && 0 <= b < out@.len() && out@[a].0@ == out@[b].0@ implies a == b by {
                assert(self.repositories.pair_seq()[a].0@ == out@[a].0@);
                assert(self.repositories.pair_seq()[b].0@ == out@[b].0@);
            }
        }
        out
    }

    /// The manifest digest recorded for `image`.
    pub fn image_digest(&self, image: &ImageRef) -> (r: Option<&String>)
        requires
            self.wf(),
        ensures
            match r {
                Some(d) => lookup_spec(self@, full_name_spec(image.registry@, image.repository@), image.whole@)
                    == Some(d@),
                None => lookup_spec(self@, full_name_spec(image.registry@, image.repository@), image.whole@).is_none(),
            },
    {
        let full = full_name(image);
        match self.repositories.get(full.as_str()) {
            Some(repo) => {
                proof {
                    let i = choose|i: int|
                        0 <= i < self.repositories.pair_seq().len() && self.repositories.pair_seq()[i].1
                            == *repo;
                    assert(self.repositories.pair_seq().contains(self.repositories.pair_seq()[i]));
                }
                repo.get(image.whole.as_str())
            },
            None => None,
        }
    }

    /// Records `digest` for `image`, creating the repository's map when it is absent.
    pub fn update(&mut self, image: &ImageRef, digest: String)
        requires
            old(self).wf(),
        ensures
            final(self).wf(),
            final(self)@ == update_spec(
                old(self)@,
                full_name_spec(image.registry@, image.repository@),
                image.whole@,
                digest@,
            ),
    {
        let full = full_name(image);
        let removed = self.repositories.remove(full.as_str());
        let mut repo = match removed {
            Some(m) => {
                proof {
                    let i = choose|i: int|
                        0 <= i < old(self).repositories.pair_seq().len()
                            && old(self).repositories.pair_seq()[i].1 == m;
                    assert(old(self).repositories.pair_seq().contains(old(self).repositories.pair_seq()[i]));
                }
                m
            },
            None => StrMap::new(),
        };
        repo.insert(image.whole.clone(), digest);
        self.repositories.insert(full, repo);
    }

    /// The hex part of the manifest digest recorded for `image`; fails with
    /// `UnknownImage` when none is, and `InvalidDigest` when it has no `algorithm:` part.
    pub fn manifest_hex(&self, image: &ImageRef) -> (r: Result<String, ImageError>)
        requires
            self.wf(),
        ensures
            match lookup_spec(self@, full_name_spec(image.registry@, image.repository@), image.whole@) {
                None => r == Err::<String, ImageError>(ImageError::UnknownImage),
                Some(d) => match strip_algorithm(d) {
                    Some(h) => r.is_ok() && r->Ok_0@ == h,
                    None => r == Err::<String, ImageError>(ImageError::InvalidDigest),
                },
            },
    {
        match self.image_digest(image) {
            Some(d) => get_digest(d.as_str()),
            None => Err(ImageError::UnknownImage),
        }
    }
}

/// Recording the same digest for the same reference twice gives the index
/// that recording it once gives, and a lookup then finds that digest.
pub proof fn lemma_update_idempotent(
    m: Map<Seq<char>, Map<Seq<char>, Seq<char>>>,
    full: Seq<char>,
    whole: Seq<char>,
    digest: Seq<char>,
)
    ensures
        update_spec(update_spec(m, full, whole, digest), full, whole, digest) == update_spec(
            m,
            full,
            whole,
            digest,
        ),
        lookup_spec(update_spec(m, full, whole, digest), full, whole) == Some(digest),
{
    let once = update_spec(m, full, whole, digest);
    assert(once[full].insert(whole, digest) =~= once[full]);
    assert(update_spec(once, full, whole, digest) =~= once);
}

} // verus!
