//! The layer writer's plan: which tar entries a change set becomes, in which
//! order, and the digests and annotations of the written layer.
use vstd::prelude::*;

use crate::change::{
    change_order, changes_view, lemma_change_order_total, sort_changes, sorted_changes, Change,
    ChangeKind, ChangeSet, ChangeView,
};
use crate::digest::{is_sha256_digest, lemma_prefixed_valid, prefixed, sha256_pre};
use crate::error::ImageError;
use crate::hashing::{sha256_hex, sha256_hex_of};
use crate::paths::{join_path, join_spec};
use crate::text::{concat, last_index_of, lemma_last_index_of, rfind_char, str_eq, substring};

verus! {

/// The media type of an uncompressed tar layer.
pub const LAYER_MEDIA_TYPE: &'static str = "application/vnd.oci.image.layer.v1.tar";

/// The prefix that marks a whiteout entry.
pub const WHITEOUT_PREFIX: &'static str = ".wh.";

/// The characters of [`WHITEOUT_PREFIX`].
pub open spec fn whiteout_prefix() -> Seq<char> {
    seq!['.', 'w', 'h', '.']
}

/// What a tar entry of a layer stands for.
#[derive(Debug, Clone, Copy, PartialEq, Eq, Structural)]
pub enum EntryRole {
    /// The destination directory or one of its parents, taken from the source directory.
    Directory,
    /// An added or modified path, taken from the source directory.
    Content,
    /// An empty file that deletes a path of the layers below.
    Whiteout,
}

/// One tar entry that a layer holds.
#[derive(Debug)]
pub struct LayerEntry {
    pub role: EntryRole,
    /// The local path the entry is read from; empty for a whiteout.
    pub source: String,
    /// The entry's name inside the archive.
    pub name: String,
    /// The change the entry comes from; `None` for a directory entry.
    pub change: Option<ChangeKind>,
    /// The path of that change, relative to the snapshot root.
    pub path: String,
}

/// The mathematical value of a [`LayerEntry`].
pub struct LayerEntryView {
    pub role: EntryRole,
    pub source: Seq<char>,
    pub name: Seq<char>,
    pub change: Option<ChangeKind>,
    pub path: Seq<char>,
}

impl View for LayerEntry {
    type V = LayerEntryView;

    open spec fn view(&self) -> LayerEntryView {
        LayerEntryView {
            role: self.role,
            source: self.source@,
            name: self.name@,
            change: self.change,
            path: self.path@,
        }
    }
}

/// The values of a list of layer entries.
pub open spec fn entries_view(s: Seq<LayerEntry>) -> Seq<LayerEntryView> {
    s.map_values(|e: LayerEntry| e@)
}

/// The prefixes of `d` that end a component, among its first `k` characters, shortest first.
pub open spec fn dir_prefixes_upto(d: Seq<char>, k: int) -> Seq<Seq<char>>
    decreases k,
{
    if k <= 0 {
        Seq::empty()
    } else {
        let rest = dir_prefixes_upto(d, k - 1);
        if k <= d.len() && d[k - 1] != '/' && (k == d.len() || d[k] == '/') {
            rest.push(d.subrange(0, k))
        } else {
            rest
        }
    }
}

/// The directory `d` and each of its parents, shortest first.
pub open spec fn dir_prefixes(d: Seq<char>) -> Seq<Seq<char>> {
    dir_prefixes_upto(d, d.len() as int)
}

/// The whiteout name of `p`: `.wh.` put before its last component.
pub open spec fn whiteout_name(p: Seq<char>) -> Seq<char> {
    let k = last_index_of(p, '/');
    p.subrange(0, k + 1) + whiteout_prefix() + p.subrange(k + 1, p.len() as int)
}

/// The tar entry for one change of a change set.
pub open spec fn change_entry(source: Seq<char>, dest: Seq<char>, c: ChangeView) -> LayerEntryView {
    match c.kind {
        ChangeKind::Removed => LayerEntryView {
            role: EntryRole::Whiteout,
            source: Seq::empty(),
            name: join_spec(dest, whiteout_name(c.path)),
            change: Some(c.kind),
            path: c.path,
        },
        _ => LayerEntryView {
            role: EntryRole::Content,
            source: join_spec(source, c.path),
            name: join_spec(dest, c.path),
            change: Some(c.kind),
            path: c.path,
        },
    }
}

/// The directory entry for one prefix of the destination directory.
pub open spec fn dir_entry(source: Seq<char>, name: Seq<char>) -> LayerEntryView {
    LayerEntryView {
        role: EntryRole::Directory,
        source,
        name,
        change: None,
        path: Seq::empty(),
    }
}

/// The tar entries of a layer, in order: the destination directory and its
/// parents, then one entry per change in layer order.
pub open spec fn layer_plan_spec(source: Seq<char>, dest: Seq<char>, items: Seq<ChangeView>) -> Seq<
    LayerEntryView,
> {
    dir_prefixes(dest).map_values(|n: Seq<char>| dir_entry(source, n)) + sorted_changes(
        items,
    ).map_values(|c: ChangeView| change_entry(source, dest, c))
}

/// The entries of a layer after its directory entries are those of its
/// changes, one per change: each added or modified path has a content entry
/// under the destination, each removed path a whiteout entry beside it, and
/// every other entry comes from some change.
pub proof fn lemma_layer_covers_changes(source: Seq<char>, dest: Seq<char>, items: Seq<ChangeView>)
    ensures
        layer_plan_spec(source, dest, items).len() == dir_prefixes(dest).len() + items.len(),
        forall|c: ChangeView|
            #[trigger] items.contains(c) ==> layer_plan_spec(source, dest, items).contains(
                change_entry(source, dest, c),
            ),
        forall|e: LayerEntryView|
            #[trigger] layer_plan_spec(source, dest, items).contains(e) && e.role != EntryRole::Directory
                ==> exists|c: ChangeView| #[trigger] items.contains(c) && e == change_entry(source, dest, c),
{
    broadcast use vstd::seq_lib::group_to_multiset_ensures;

    lemma_change_order_total();
    items.lemma_sort_by_ensures(change_order());
    let sorted = sorted_changes(items);
    let f = |c: ChangeView| change_entry(source, dest, c);
    let dirs = dir_prefixes(dest).map_values(|n: Seq<char>| dir_entry(source, n));
    let plan = layer_plan_spec(source, dest, items);
    assert(plan == dirs + sorted.map_values(f));
    assert(sorted.len() == items.len()) by {
        vstd::seq_lib::to_multiset_len(items);
        vstd::seq_lib::to_multiset_len(sorted);
    }
    assert forall|c: ChangeView| #[trigger] items.contains(c) implies plan.contains(f(c)) by {
        assert(items.to_multiset().count(c) > 0);
        assert(sorted.contains(c));
        let i = choose|i: int| 0 <= i < sorted.len() && sorted[i] == c;
        assert(plan[dirs.len() + i] == f(c));
    }
    assert forall|e: LayerEntryView|
        #[trigger] plan.contains(e) && e.role != EntryRole::Directory implies exists|c: ChangeView|
        #[trigger] items.contains(c) && e == f(c) by {
        let i = choose|i: int| 0 <= i < plan.len() && plan[i] == e;
        if i < dirs.len() {
            assert(dirs[i].role == EntryRole::Directory);
        } else {
            let c = sorted[i - dirs.len()];
            assert(sorted.contains(c));
            assert(sorted.to_multiset().count(c) > 0);
            assert(items.contains(c));
            assert(e == f(c));
        }
    }
}

/// The whiteout name of `p`.
pub fn whiteout_path(p: &str) -> (r: String)
    ensures
        r@ == whiteout_name(p@),
{
    proof {
        lemma_last_index_of(p@, '/');
    }
    let n = p.unicode_len();
    let start = match rfind_char(p, '/') {
        Some(k) => k + 1,
        None => 0,
    };
    let parent = substring(p, 0, start);
    let base = substring(p, start, n);
    let w = WHITEOUT_PREFIX;
    proof {
        reveal_strlit(".wh.");
    }
    let pw = concat(parent.as_str(), w);
    let r = concat(pw.as_str(), base.as_str());
    assert(w@ =~= whiteout_prefix());
    r
}

fn entry_for_change(source: &str, dest: &str, c: &Change) -> (r: LayerEntry)
    ensures
        r@ == change_entry(source@, dest@, c@),
{
    let path = c.path();
    match c {
        Change::Removed(_) => {
            let w = whiteout_path(path.as_str());
            LayerEntry {
                role: EntryRole::Whiteout,
                source: String::new(),
                name: join_path(dest, w.as_str()),
                change: Some(ChangeKind::Removed),
                path: path.clone(),
            }
        },
        _ => LayerEntry {
            role: EntryRole::Content,
            source: join_path(source, path.as_str()),
            name: join_path(dest, path.as_str()),
            change: Some(c.kind()),
            path: path.clone(),
        },
    }
}

/// The entries for the destination directory and its parents.
fn dir_entries(source: &str, dest: &str) -> (r: Vec<LayerEntry>)
    ensures
        entries_view(r@) == dir_prefixes(dest@).map_values(|n: Seq<char>| dir_entry(source@, n)),
{
    let n = dest.unicode_len();
    let mut out: Vec<LayerEntry> = Vec::new();
    let mut k: usize = 0;
    assert(entries_view(out@) =~= dir_prefixes_upto(dest@, 0).map_values(
        |n: Seq<char>| dir_entry(source@, n),
    ));
    while k < n
        invariant
            k <= n,
            n == dest@.len(),
            entries_view(out@) == dir_prefixes_upto(dest@, k as int).map_values(
                |n: Seq<char>| dir_entry(source@, n),
            ),
        decreases n - k,
    {
        let ghost before = entries_view(out@);
        if dest.get_char(k) != '/' && (k + 1 == n || dest.get_char(k + 1) == '/') {
            let name = substring(dest, 0, k + 1);
            let e = LayerEntry {
                role: EntryRole::Directory,
                source: source.to_owned(),
                name,
                change: None,
                path: String::new(),
            };
            out.push(e);
            assert(entries_view(out@) =~= before.push(dir_entry(source@, dest@.subrange(0, k + 1))));
        }
        assert(entries_view(out@) =~= dir_prefixes_upto(dest@, k + 1).map_values(
            |n: Seq<char>| dir_entry(source@, n),
        ));
        k = k + 1;
    }
    out
}

impl ChangeSet {
    /// The tar entries of the layer for this change set, in the order they are written.
    pub fn layer_entries(self) -> (r: Vec<LayerEntry>)
        ensures
            entries_view(r@) == layer_plan_spec(self.source_dir@, self.dest_dir@, changes_view(self.items@)),
    {
        let ChangeSet { source_dir, dest_dir, items } = self;
        let ghost iv = changes_view(items@);
        let sorted = sort_changes(items);
        let mut out = dir_entries(source_dir.as_str(), dest_dir.as_str());
        let ghost dirs = entries_view(out@);
        let ghost sv = changes_view(sorted@);
        let mut i: usize = 0;
        assert(entries_view(out@) =~= dirs + sv.take(0).map_values(
            |c: ChangeView| change_entry(source_dir@, dest_dir@, c),
        ));
        while i < sorted.len()
            invariant
                i <= sorted@.len(),
                sv == changes_view(sorted@),
                entries_view(out@) == dirs + sv.take(i as int).map_values(
                    |c: ChangeView| change_entry(source_dir@, dest_dir@, c),
                ),
            decreases sorted@.len() - i,
        {
            let e = entry_for_change(source_dir.as_str(), dest_dir.as_str(), &sorted[i]);
            let ghost before = entries_view(out@);
            let ghost ev = e@;
            out.push(e);
            proof {
                let f = |c: ChangeView| change_entry(source_dir@, dest_dir@, c);
                assert(sv[i as int] == sorted@[i as int]@);
                assert(ev == f(sv[i as int]));
                assert(entries_view(out@) =~= before.push(ev));
                assert(sv.take(i + 1) =~= sv.take(i as int).push(sv[i as int]));
                assert(sv.take(i + 1).map_values(f) =~= sv.take(i as int).map_values(f).push(ev));
                assert(entries_view(out@) =~= dirs + sv.take(i + 1).map_values(f));
            }
            i = i + 1;
        }
        assert(sv.take(i as int) =~= sv);
        out
    }
}

/// Whether `media_type` is the one layer media type that is written.
pub fn is_layer_media_type(media_type: &str) -> (r: bool)
    ensures
        r == (media_type@ == LAYER_MEDIA_TYPE@),
{
    str_eq(media_type, LAYER_MEDIA_TYPE)
}

/// Describes a blob inside a manifest.
#[derive(Debug)]
pub struct Descriptor {
    pub media_type: String,
    pub digest: String,
    pub size: i64,
    pub annotations: Vec<(String, String)>,
}

/// The strings of `s` joined by `:`.
pub open spec fn colon_joined(s: Seq<Seq<char>>) -> Seq<char>
    decreases s.len(),
{
    if s.len() == 0 {
        Seq::empty()
    } else if s.len() == 1 {
        s[0]
    } else {
        colon_joined(s.drop_last()) + seq![':'] + s.last()
    }
}

/// At most the first 100 strings of `v`, joined by `:`.
pub fn first_100(v: &Vec<String>) -> (r: String)
    ensures
        r@ == colon_joined(v@.take(if v@.len() < 100 { v@.len() as int } else { 100 }).map_values(
            |s: String| s@,
        )),
{
    let n: usize = if v.len() < 100 {
        v.len()
    } else {
        100
    };
    let mut out = String::new();
    let mut i: usize = 0;
    let sep = ":";
    proof {
        reveal_strlit(":");
    }
    assert(v@.take(0).map_values(|s: String| s@) =~= Seq::<Seq<char>>::empty());
    while i < n
        invariant
            i <= n <= v@.len(),
            sep@ == seq![':'],
            out@ == colon_joined(v@.take(i as int).map_values(|s: String| s@)),
        decreases n - i,
    {
        let ghost prev = v@.take(i as int).map_values(|s: String| s@);
        let ghost next = v@.take(i + 1).map_values(|s: String| s@);
        assert(next.drop_last() =~= prev);
        if i == 0 {
            out = v[0].clone();
            assert(next =~= seq![v@[0]@]);
        } else {
            let with_sep = concat(out.as_str(), sep);
            out = concat(with_sep.as_str(), v[i].as_str());
        }
        i = i + 1;
    }
    out
}

/// The paths of the entries of `plan` that come from a change of kind `kind` and were written.
pub open spec fn written_paths(plan: Seq<LayerEntryView>, written: Seq<bool>, kind: ChangeKind) -> Seq<
    Seq<char>,
>
    decreases plan.len(),
{
    if plan.len() == 0 || written.len() != plan.len() {
        Seq::empty()
    } else {
        let rest = written_paths(plan.drop_last(), written.drop_last(), kind);
        if written.last() && plan.last().change == Some(kind) {
            rest.push(plan.last().path)
        } else {
            rest
        }
    }
}

/// The paths of the entries of `plan` of a change kind that were written.
pub fn written_of_kind(plan: &Vec<LayerEntry>, written: &Vec<bool>, kind: ChangeKind) -> (r: Vec<String>)
    requires
        plan@.len() == written@.len(),
    ensures
        r@.map_values(|s: String| s@) == written_paths(entries_view(plan@), written@, kind),
{
    let mut out: Vec<String> = Vec::new();
    let mut i: usize = 0;
    assert(entries_view(plan@).take(0) =~= Seq::<LayerEntryView>::empty());
    while i < plan.len()
        invariant
            i <= plan@.len() == written@.len(),
            out@.map_values(|s: String| s@) == written_paths(
                entries_view(plan@).take(i as int),
                written@.take(i as int),
                kind,
            ),
        decreases plan@.len() - i,
    {
        let ghost before = out@.map_values(|s: String| s@);
        assert(entries_view(plan@).take(i + 1).drop_last() =~= entries_view(plan@).take(i as int));
        assert(written@.take(i + 1).drop_last() =~= written@.take(i as int));
        assert(entries_view(plan@).take(i + 1).last() == plan@[i as int]@);
        if written[i] && plan[i].change == Some(kind) {
            out.push(plan[i].path.clone());
            assert(out@.map_values(|s: String| s@) =~= before.push(plan@[i as int].path@));
        }
        i = i + 1;
    }
    assert(entries_view(plan@).take(i as int) =~= entries_view(plan@));
    assert(written@.take(i as int) =~= written@);
    out
}

/// The result of writing an empty change set: no blob, `<empty>` as diff id
/// and a descriptor with digest `<none>` and size 0.
pub fn empty_layer(media_type: &str) -> (r: (String, Descriptor))
    ensures
        r.0@ == "<empty>"@,
        r.1.media_type@ == media_type@,
        r.1.digest@ == "<none>"@,
        r.1.size == 0,
        r.1.annotations@.len() == 0,
{
    (
        "<empty>".to_owned(),
        Descriptor {
            media_type: media_type.to_owned(),
            digest: "<none>".to_owned(),
            size: 0,
            annotations: Vec::new(),
        },
    )
}

/// How writing the layer of a change set goes.
#[derive(Debug, Clone, Copy, PartialEq, Eq, Structural)]
pub enum LayerStart {
    /// No changes: no blob is written, and the result is [`empty_layer`].
    Empty,
    /// The layer is written.
    Write,
}

impl ChangeSet {
    /// Decides how writing this change set's layer of `media_type` goes: an
    /// empty change set writes nothing, whatever the media type; otherwise only
    /// the uncompressed tar layer is written, and any other media type is
    /// refused with `UnsupportedMediaType`.
    pub fn layer_start(&self, media_type: &str) -> (r: Result<LayerStart, ImageError>)
        ensures
            self.items@.len() == 0 ==> r == Ok::<LayerStart, ImageError>(LayerStart::Empty),
            self.items@.len() > 0 && media_type@ == LAYER_MEDIA_TYPE@ ==> r == Ok::<
                LayerStart,
                ImageError,
            >(LayerStart::Write),
            self.items@.len() > 0 && media_type@ != LAYER_MEDIA_TYPE@ ==> r == Err::<
                LayerStart,
                ImageError,
            >(ImageError::UnsupportedMediaType),
    {
        if self.items.len() == 0 {
            Ok(LayerStart::Empty)
        } else if is_layer_media_type(media_type) {
            Ok(LayerStart::Write)
        } else {
            Err(ImageError::UnsupportedMediaType)
        }
    }
}

/// The diff id of a layer: the digest of its uncompressed tar.
pub fn diff_id_of(tar: &[u8]) -> (r: String)
    ensures
        r@ == prefixed(sha256_hex_of(tar@)),
        is_sha256_digest(r@),
{
    let h = sha256_hex(tar);
    proof {
        lemma_prefixed_valid(h@);
    }
    sha256_pre(h.as_str())
}

fn annotation(key: &str, value: String) -> (r: (String, String))
    ensures
        r.0@ == key@,
        r.1@ == value@,
{
    (key.to_owned(), value)
}

/// The keys of a layer's annotations.
pub const ANNOTATION_VERSION: &'static str = "io.stencila.version";
pub const ANNOTATION_CREATED: &'static str = "io.stencila.layer.created";
pub const ANNOTATION_DIRECTORY: &'static str = "io.stencila.layer.directory";
pub const ANNOTATION_CHANGES: &'static str = "io.stencila.layer.changes";
pub const ANNOTATION_ADDITIONS: &'static str = "io.stencila.layer.additions";
pub const ANNOTATION_MODIFICATIONS: &'static str = "io.stencila.layer.modifications";
pub const ANNOTATION_DELETIONS: &'static str = "io.stencila.layer.deletions";

/// The decimal digits of `n`.
pub open spec fn decimal(n: nat) -> Seq<char>
    decreases n,
{
    if n < 10 {
        seq![digit_char(n)]
    } else {
        decimal(n / 10) + seq![digit_char(n % 10)]
    }
}

/// The digit character for a value below 10.
pub open spec fn digit_char(d: nat) -> char {
    if d == 0 { '0' } else if d == 1 { '1' } else if d == 2 { '2' } else if d == 3 { '3' } else if d == 4 { '4' }
    else if d == 5 { '5' } else if d == 6 { '6' } else if d == 7 { '7' } else if d == 8 { '8' } else { '9' }
}

fn digit_string(d: usize) -> (r: String)
    requires
        d < 10,
    ensures
        r@ == seq![digit_char(d as nat)],
{
    let s = if d == 0 { "0" } else if d == 1 { "1" } else if d == 2 { "2" } else if d == 3 { "3" } else if d == 4 { "4" }
    else if d == 5 { "5" } else if d == 6 { "6" } else if d == 7 { "7" } else if d == 8 { "8" } else { "9" };
    proof {
        reveal_strlit("0"); reveal_strlit("1"); reveal_strlit("2"); reveal_strlit("3"); reveal_strlit("4");
        reveal_strlit("5"); reveal_strlit("6"); reveal_strlit("7"); reveal_strlit("8"); reveal_strlit("9");
    }
    let r = s.to_owned();
    assert(r@ =~= seq![digit_char(d as nat)]);
    r
}

/// The decimal form of `n`.
pub fn decimal_string(n: usize) -> (r: String)
    ensures
        r@ == decimal(n as nat),
    decreases n,
{
    if n < 10 {
        digit_string(n)
    } else {
        let high = decimal_string(n / 10);
        let low = digit_string(n % 10);
        concat(high.as_str(), low.as_str())
    }
}

/// The (key, value) texts of a list of annotations.
pub open spec fn annotations_view(a: Seq<(String, String)>) -> Seq<(Seq<char>, Seq<char>)> {
    a.map_values(|p: (String, String)| (p.0@, p.1@))
}

/// At most the first 100 of `s`.
pub open spec fn first_100_of(s: Seq<Seq<char>>) -> Seq<Seq<char>> {
    s.take(if s.len() < 100 { s.len() as int } else { 100 })
}

/// The annotation `key` listing `paths`, when there are any.
pub open spec fn list_annotation(key: Seq<char>, paths: Seq<Seq<char>>) -> Seq<(Seq<char>, Seq<char>)> {
    if paths.len() == 0 {
        Seq::empty()
    } else {
        seq![(key, colon_joined(first_100_of(paths)))]
    }
}

/// The annotations that list the written additions, modifications and deletions of `plan`.
pub open spec fn change_annotations(plan: Seq<LayerEntryView>, written: Seq<bool>) -> Seq<(Seq<char>, Seq<char>)> {
    list_annotation(ANNOTATION_ADDITIONS@, written_paths(plan, written, ChangeKind::Added)) + list_annotation(
        ANNOTATION_MODIFICATIONS@,
        written_paths(plan, written, ChangeKind::Modified),
    ) + list_annotation(ANNOTATION_DELETIONS@, written_paths(plan, written, ChangeKind::Removed))
}

/// Appends the annotation `key` listing `paths`, when there are any.
fn push_list_annotation(annotations: &mut Vec<(String, String)>, key: &str, paths: &Vec<String>)
    ensures
        annotations_view(final(annotations)@) == annotations_view(old(annotations)@) + list_annotation(
            key@,
            paths@.map_values(|s: String| s@),
        ),
{
    let ghost before = annotations_view(annotations@);
    let ghost pv = paths@.map_values(|s: String| s@);
    if paths.len() > 0 {
        let joined = first_100(paths);
        let ghost jv = joined@;
        annotations.push(annotation(key, joined));
        proof {
            let n = if paths@.len() < 100 { paths@.len() as int } else { 100 };
            assert(paths@.take(n).map_values(|s: String| s@) =~= first_100_of(pv));
            assert(annotations_view(annotations@) =~= before + list_annotation(key@, pv));
        }
    } else {
        assert(annotations_view(annotations@) =~= before + list_annotation(key@, pv));
    }
}

/// What a finished layer reports: its diff id and its descriptor.
pub struct LayerResult {
    pub diff_id: String,
    pub descriptor: Descriptor,
}

/// Finishes a written layer. `plan` is the list of entries that was written,
/// `written` says which of them the archive took, `tar` is the archive and
/// `blob` the bytes stored. The diff id is the digest of `tar`, the descriptor's
/// digest and size those of `blob`; the annotations record `version`, the time
/// of writing `created`, `dest_dir`, `changes`, and the first 100 written
/// additions, modifications and deletions.
pub fn finish_layer(
    media_type: &str,
    tar: &[u8],
    blob: &[u8],
    dest_dir: &str,
    changes: usize,
    plan: &Vec<LayerEntry>,
    written: &Vec<bool>,
    version: &str,
    created: &str,
) -> (r: LayerResult)
    requires
        plan@.len() == written@.len(),
        blob@.len() <= i64::MAX,
    ensures
        r.diff_id@ == prefixed(sha256_hex_of(tar@)),
        r.descriptor.digest@ == prefixed(sha256_hex_of(blob@)),
        is_sha256_digest(r.diff_id@),
        is_sha256_digest(r.descriptor.digest@),
        r.descriptor.size == blob@.len(),
        r.descriptor.media_type@ == media_type@,
        r.descriptor.annotations@.len() >= 4,
        r.descriptor.annotations@[0].0@ == ANNOTATION_VERSION@,
        r.descriptor.annotations@[0].1@ == version@,
        r.descriptor.annotations@[1].0@ == ANNOTATION_CREATED@,
        r.descriptor.annotations@[1].1@ == created@,
        r.descriptor.annotations@[2].0@ == ANNOTATION_DIRECTORY@,
        r.descriptor.annotations@[2].1@ == dest_dir@,
        r.descriptor.annotations@[3].0@ == ANNOTATION_CHANGES@,
        r.descriptor.annotations@[3].1@ == decimal(changes as nat),
        annotations_view(r.descriptor.annotations@).subrange(
            4,
            r.descriptor.annotations@.len() as int,
        ) == change_annotations(entries_view(plan@), written@),
{
    let diff_id = diff_id_of(tar);
    let digest = diff_id_of(blob);
    let mut annotations: Vec<(String, String)> = Vec::new();
    annotations.push(annotation(ANNOTATION_VERSION, version.to_owned()));
    annotations.push(annotation(ANNOTATION_CREATED, created.to_owned()));
    annotations.push(annotation(ANNOTATION_DIRECTORY, dest_dir.to_owned()));
    annotations.push(annotation(ANNOTATION_CHANGES, decimal_string(changes)));
    let ghost head = annotations@;
    assert(head[0].0@ == ANNOTATION_VERSION@ && head[0].1@ == version@);
    assert(head[1].0@ == ANNOTATION_CREATED@ && head[1].1@ == created@);
    assert(head[2].0@ == ANNOTATION_DIRECTORY@ && head[2].1@ == dest_dir@);
    assert(head[3].0@ == ANNOTATION_CHANGES@ && head[3].1@ == decimal(changes as nat));
    let ghost head_view = annotations_view(annotations@);
    let additions = written_of_kind(plan, written, ChangeKind::Added);
    push_list_annotation(&mut annotations, ANNOTATION_ADDITIONS, &additions);
    let modifications = written_of_kind(plan, written, ChangeKind::Modified);
    push_list_annotation(&mut annotations, ANNOTATION_MODIFICATIONS, &modifications);
    let deletions = written_of_kind(plan, written, ChangeKind::Removed);
    push_list_annotation(&mut annotations, ANNOTATION_DELETIONS, &deletions);
    proof {
        let all = annotations_view(annotations@);
        assert(all =~= head_view + change_annotations(entries_view(plan@), written@));
        assert(all.subrange(4, all.len() as int) =~= change_annotations(entries_view(plan@), written@));
        assert forall|i: int| 0 <= i < 4 implies annotations@[i].0@ == head[i].0@ && annotations@[i].1@
            == head[i].1@ by {
            assert(all[i] == head_view[i]);
        }
        assert(all[0] == head_view[0] && all[1] == head_view[1] && all[2] == head_view[2] && all[3]
            == head_view[3]);
        assert(annotations@[0].0@ == head[0].0@ && annotations@[0].1@ == head[0].1@);
        assert(annotations@[1].0@ == head[1].0@ && annotations@[1].1@ == head[1].1@);
        assert(annotations@[2].0@ == head[2].0@ && annotations@[2].1@ == head[2].1@);
        assert(annotations@[3].0@ == head[3].0@ && annotations@[3].1@ == head[3].1@);
    }
    LayerResult {
        diff_id,
        descriptor: Descriptor {
            media_type: media_type.to_owned(),
            digest,
            size: blob.len() as i64,
            annotations,
        },
    }
}

} // verus!
