//! The image config file, the manifest, and the assembly of a built image.
use vstd::prelude::*;

use crate::build_config::BuildConfig;
use crate::digest::{get_digest, is_sha256_digest, lemma_prefixed_valid, prefixed, sha256_pre, strip_algorithm};
use crate::error::ImageError;
use crate::hashing::{digest_hex, digest_hex_of};
use crate::instructions::Kind;
use crate::layer::{Descriptor, LayerResult};
use crate::paths::{join_path, join_spec};
use crate::text::{strip_first, substring};

verus! {

/// The media type of an image config.
pub const CONFIG_MEDIA_TYPE: &'static str = "application/vnd.oci.image.config.v1+json";

/// The media type of an image manifest.
pub const MANIFEST_MEDIA_TYPE: &'static str = "application/vnd.oci.image.manifest.v1+json";

/// The layers of an image's root filesystem.
#[derive(Debug)]
pub struct RootFs {
    /// Always `layers`.
    pub typ: String,
    /// The diff ids of the layers, base first.
    pub diff_ids: Vec<String>,
}

/// The image config file.
#[derive(Debug)]
pub struct ConfigFile {
    pub kind: Kind,
    /// The in-image path of the entrypoint, without a leading `/`.
    pub cmd: String,
    pub rootf: RootFs,
}

/// A config file together with the bytes it was read from.
pub struct ConfigFileAndData {
    pub file: ConfigFile,
    pub data: Vec<u8>,
}

/// The bytes of a stored manifest.
pub struct Manifest(pub Vec<u8>);

/// The bytes of a stored layer, with its media type.
pub struct LayerAndData {
    pub data: Vec<u8>,
    pub media_type: String,
}

impl ConfigFile {
    /// The config of an image built from `config`, with the layers' diff ids in order.
    pub fn new(config: &BuildConfig, diff_ids: Vec<String>) -> (r: Result<ConfigFile, ImageError>)
        ensures
            r.is_ok(),
            r->Ok_0.kind == config.kind,
            r->Ok_0.cmd@ == strip_first(config.cmd.origin@, '/'),
            r->Ok_0.rootf.typ@ == "layers"@,
            r->Ok_0.rootf.diff_ids == diff_ids,
    {
        let origin = config.cmd.origin.as_str();
        let n = origin.unicode_len();
        let cmd = if n > 0 && origin.get_char(0) == '/' {
            substring(origin, 1, n)
        } else {
            origin.to_owned()
        };
        Ok(ConfigFile { kind: config.kind, cmd, rootf: RootFs { typ: "layers".to_owned(), diff_ids } })
    }
}

/// The descriptor of a config blob: its media type, digest and size.
pub fn config_descriptor(data: &[u8]) -> (r: Descriptor)
    requires
        data@.len() <= i64::MAX,
    ensures
        r.media_type@ == CONFIG_MEDIA_TYPE@,
        r.digest@ == prefixed(digest_hex_of(data@)),
        is_sha256_digest(r.digest@),
        r.size == data@.len(),
        r.annotations@.len() == 0,
{
    let hex = digest_hex(data);
    proof {
        lemma_prefixed_valid(hex@);
    }
    Descriptor {
        media_type: CONFIG_MEDIA_TYPE.to_owned(),
        digest: sha256_pre(hex.as_str()),
        size: data.len() as i64,
        annotations: Vec::new(),
    }
}

/// The hex digest under which a blob is stored.
pub fn blob_digest(data: &[u8]) -> (r: String)
    ensures
        r@ == digest_hex_of(data@),
{
    digest_hex(data)
}

/// An OCI image manifest.
#[derive(Debug)]
pub struct ImageManifest {
    pub schema_version: u8,
    pub media_type: String,
    pub config: Descriptor,
    pub layers: Vec<Descriptor>,
}

impl ImageManifest {
    /// The manifest of schema version 2 for a config and its layers.
    pub fn new(config: Descriptor, layers: Vec<Descriptor>) -> (r: ImageManifest)
        ensures
            r.schema_version == 2,
            r.media_type@ == MANIFEST_MEDIA_TYPE@,
            r.config == config,
            r.layers == layers,
    {
        ImageManifest { schema_version: 2, media_type: MANIFEST_MEDIA_TYPE.to_owned(), config, layers }
    }
}

/// The diff ids and layer descriptors of an image being built, co-indexed.
pub struct ImageAssembly {
    pub diff_ids: Vec<String>,
    pub layers: Vec<Descriptor>,
}

impl ImageAssembly {
    /// No layers yet.
    pub fn new() -> (r: ImageAssembly)
        ensures
            r.diff_ids@.len() == 0,
            r.layers@.len() == 0,
    {
        ImageAssembly { diff_ids: Vec::new(), layers: Vec::new() }
    }

    /// Appends a written layer: its diff id to the config's list and its
    /// descriptor, without annotations, to the manifest's list.
    pub fn add_layer(&mut self, layer: LayerResult)
        ensures
            final(self).diff_ids@ == old(self).diff_ids@.push(layer.diff_id),
            final(self).layers@.len() == old(self).layers@.len() + 1,
            final(self).layers@.subrange(0, old(self).layers@.len() as int) == old(self).layers@,
            final(self).layers@.last().media_type == layer.descriptor.media_type,
            final(self).layers@.last().digest == layer.descriptor.digest,
            final(self).layers@.last().size == layer.descriptor.size,
            final(self).layers@.last().annotations@.len() == 0,
    {
        let LayerResult { diff_id, descriptor } = layer;
        let Descriptor { media_type, digest, size, annotations: _ } = descriptor;
        self.diff_ids.push(diff_id);
        self.layers.push(Descriptor { media_type, digest, size, annotations: Vec::new() });
        assert(self.layers@.subrange(0, old(self).layers@.len() as int) =~= old(self).layers@);
    }
}

/// The hex digests of a manifest's config blob and of its layer blobs, in order.
pub fn blob_hexes(config_digest: &str, layer_digests: &Vec<String>) -> (r: Result<(String, Vec<String>), ImageError>)
    ensures
        match r {
            Ok((c, ls)) => strip_algorithm(config_digest@) == Some(c@) && ls@.len() == layer_digests@.len()
                && forall|i: int|
                0 <= i < ls@.len() ==> strip_algorithm(#[trigger] layer_digests@[i]@) == Some(ls@[i]@),
            Err(e) => e == ImageError::InvalidDigest && (strip_algorithm(config_digest@).is_none() || exists|i: int|
                0 <= i < layer_digests@.len() && strip_algorithm(#[trigger] layer_digests@[i]@).is_none()),
        },
{
    let c = get_digest(config_digest)?;
    let mut ls: Vec<String> = Vec::new();
    let mut i: usize = 0;
    while i < layer_digests.len()
        invariant
            i <= layer_digests@.len(),
            ls@.len() == i,
            forall|j: int| 0 <= j < i ==> strip_algorithm(#[trigger] layer_digests@[j]@) == Some(ls@[j]@),
        decreases layer_digests@.len() - i,
    {
        match get_digest(layer_digests[i].as_str()) {
            Ok(h) => ls.push(h),
            Err(e) => {
                return Err(e);
            },
        }
        i = i + 1;
    }
    Ok((c, ls))
}

/// A blob that a pull fetches.
#[derive(Debug)]
pub struct BlobFetch {
    /// The blob is the config, not a layer.
    pub config: bool,
    /// The position of the layer in the manifest; 0 for the config.
    pub index: usize,
    /// The blob's hex digest.
    pub hex: String,
}

/// The blobs a pull fetches, in order: the config, then each layer in the
/// manifest's order, each only when it is not stored yet.
pub open spec fn pull_plan_spec(
    config_hex: Seq<char>,
    config_present: bool,
    layer_hexes: Seq<Seq<char>>,
    layers_present: Seq<bool>,
) -> Seq<(bool, int, Seq<char>)> {
    let head: Seq<(bool, int, Seq<char>)> = if config_present {
        Seq::empty()
    } else {
        seq![(true, 0, config_hex)]
    };
    head + missing_layers(layer_hexes, layers_present, layer_hexes.len() as int)
}

/// The layers among the first `k` that are not stored, in order, with their positions.
pub open spec fn missing_layers(hexes: Seq<Seq<char>>, present: Seq<bool>, k: int) -> Seq<(bool, int, Seq<char>)>
    decreases k,
{
    if k <= 0 {
        Seq::empty()
    } else {
        let rest = missing_layers(hexes, present, k - 1);
        if present[k - 1] {
            rest
        } else {
            rest.push((false, k - 1, hexes[k - 1]))
        }
    }
}

/// The parts of a [`BlobFetch`].
pub open spec fn fetch_view(f: BlobFetch) -> (bool, int, Seq<char>) {
    (f.config, f.index as int, f.hex@)
}

/// The blobs to fetch for a manifest whose config and layers have the hex
/// digests given, of which those flagged present are stored already.
pub fn pull_plan(
    config_hex: &String,
    config_present: bool,
    layer_hexes: &Vec<String>,
    layers_present: &Vec<bool>,
) -> (r: Vec<BlobFetch>)
    requires
        layer_hexes@.len() == layers_present@.len(),
    ensures
        r@.map_values(|f: BlobFetch| fetch_view(f)) == pull_plan_spec(
            config_hex@,
            config_present,
            layer_hexes@.map_values(|s: String| s@),
            layers_present@,
        ),
{
    let ghost hv = layer_hexes@.map_values(|s: String| s@);
    let mut out: Vec<BlobFetch> = Vec::new();
    if !config_present {
        out.push(BlobFetch { config: true, index: 0, hex: config_hex.clone() });
    }
    let ghost head = out@.map_values(|f: BlobFetch| fetch_view(f));
    let mut i: usize = 0;
    while i < layer_hexes.len()
        invariant
            i <= layer_hexes@.len() == layers_present@.len(),
            hv == layer_hexes@.map_values(|s: String| s@),
            out@.map_values(|f: BlobFetch| fetch_view(f)) == head + missing_layers(hv, layers_present@, i as int),
        decreases layer_hexes@.len() - i,
    {
        let ghost before = out@.map_values(|f: BlobFetch| fetch_view(f));
        if !layers_present[i] {
            out.push(BlobFetch { config: false, index: i, hex: layer_hexes[i].clone() });
            assert(hv[i as int] == layer_hexes@[i as int]@);
            assert(out@.map_values(|f: BlobFetch| fetch_view(f)) =~= before.push((false, i as int, hv[i as int])));
        }
        assert(out@.map_values(|f: BlobFetch| fetch_view(f)) =~= head + missing_layers(hv, layers_present@, i + 1));
        i = i + 1;
    }
    proof {
        let expected_head: Seq<(bool, int, Seq<char>)> = if config_present {
            Seq::empty()
        } else {
            seq![(true, 0, config_hex@)]
        };
        assert(head =~= expected_head);
    }
    out
}

/// What materializing an image does with its container directory.
#[derive(Debug, Clone, Copy, PartialEq, Eq, Structural)]
pub enum ContainerPlan {
    /// Use the directory as it is.
    Reuse,
    /// Fill the directory from the layers.
    Extract,
    /// Delete the directory, then fill it from the layers.
    ClearAndExtract,
}

/// With `force` an existing directory is deleted and filled again; without it
/// an existing directory is used as it is; a missing one is filled.
pub fn container_plan(force: bool, exists: bool) -> (r: ContainerPlan)
    ensures
        r == (if exists && force {
            ContainerPlan::ClearAndExtract
        } else if exists {
            ContainerPlan::Reuse
        } else {
            ContainerPlan::Extract
        }),
{
    if exists {
        if force {
            ContainerPlan::ClearAndExtract
        } else {
            ContainerPlan::Reuse
        }
    } else {
        ContainerPlan::Extract
    }
}

/// The local store: manifests, configs, layer blobs and containers under one root.
pub struct FileSystem {
    /// The store's root directory.
    pub root: String,
}

impl FileSystem {
    /// The store rooted at `.hpmq` in the home directory `home`.
    pub fn new(home: &str) -> (r: FileSystem)
        ensures
            r.root@ == join_spec(home@, ".hpmq"@),
    {
        FileSystem { root: join_path(home, ".hpmq") }
    }

    /// `layerdb/`.
    pub fn layer(&self) -> (r: String)
        ensures
            r@ == join_spec(self.root@, "layerdb"@),
    {
        join_path(self.root.as_str(), "layerdb")
    }

    /// `layerdb/contents/`.
    pub fn layer_contents(&self) -> (r: String)
        ensures
            r@ == join_spec(join_spec(self.root@, "layerdb"@), "contents"@),
    {
        join_path(self.layer().as_str(), "contents")
    }

    /// `layerdb/blobs/sha256/`.
    pub fn layer_blobs(&self) -> (r: String)
        ensures
            r@ == join_spec(join_spec(join_spec(self.root@, "layerdb"@), "blobs"@), "sha256"@),
    {
        let blobs = join_path(self.layer().as_str(), "blobs");
        join_path(blobs.as_str(), "sha256")
    }

    /// `imagedb/`.
    pub fn imagedb(&self) -> (r: String)
        ensures
            r@ == join_spec(self.root@, "imagedb"@),
    {
        join_path(self.root.as_str(), "imagedb")
    }

    /// `imagedb/sha256/`: the config blobs.
    pub fn image_sha256(&self) -> (r: String)
        ensures
            r@ == join_spec(join_spec(self.root@, "imagedb"@), "sha256"@),
    {
        join_path(self.imagedb().as_str(), "sha256")
    }

    /// `imagedb/manifests/sha256/`: the manifest blobs.
    pub fn manifest_sha256(&self) -> (r: String)
        ensures
            r@ == join_spec(join_spec(join_spec(self.root@, "imagedb"@), "manifests"@), "sha256"@),
    {
        let manifests = join_path(self.imagedb().as_str(), "manifests");
        join_path(manifests.as_str(), "sha256")
    }

    /// `imagedb/images.json`: the repositories index.
    pub fn images_json(&self) -> (r: String)
        ensures
            r@ == join_spec(join_spec(self.root@, "imagedb"@), "images.json"@),
    {
        join_path(self.imagedb().as_str(), "images.json")
    }

    /// `containerdb/`.
    pub fn container(&self) -> (r: String)
        ensures
            r@ == join_spec(self.root@, "containerdb"@),
    {
        join_path(self.root.as_str(), "containerdb")
    }

    /// The config blob with hex digest `hex`.
    pub fn config_path(&self, hex: &str) -> (r: String)
        ensures
            r@ == join_spec(join_spec(join_spec(self.root@, "imagedb"@), "sha256"@), hex@),
    {
        join_path(self.image_sha256().as_str(), hex)
    }

    /// The manifest blob with hex digest `hex`.
    pub fn manifest_path(&self, hex: &str) -> (r: String)
        ensures
            r@ == join_spec(join_spec(join_spec(join_spec(self.root@, "imagedb"@), "manifests"@), "sha256"@), hex@),
    {
        join_path(self.manifest_sha256().as_str(), hex)
    }

    /// The layer blob with hex digest `hex`.
    pub fn layer_path(&self, hex: &str) -> (r: String)
        ensures
            r@ == join_spec(join_spec(join_spec(join_spec(self.root@, "layerdb"@), "blobs"@), "sha256"@), hex@),
    {
        join_path(self.layer_blobs().as_str(), hex)
    }

    /// The root filesystem of the container for the manifest digest `digest`.
    pub fn container_path(&self, digest: &str) -> (r: String)
        ensures
            r@ == join_spec(join_spec(self.root@, "containerdb"@), digest@),
    {
        join_path(self.container().as_str(), digest)
    }

    /// The layer blob that a digest `algorithm:hex` names.
    pub fn layer_blob_for(&self, digest: &str) -> (r: Result<String, ImageError>)
        ensures
            match strip_algorithm(digest@) {
                Some(h) => r.is_ok() && r->Ok_0@ == join_spec(
                    join_spec(join_spec(join_spec(self.root@, "layerdb"@), "blobs"@), "sha256"@),
                    h,
                ),
                None => r == Err::<String, ImageError>(ImageError::InvalidDigest),
            },
    {
        let hex = get_digest(digest)?;
        Ok(self.layer_path(hex.as_str()))
    }
}

/// A materialized image: its config and the directory that holds its root filesystem.
pub struct Container {
    pub config: ConfigFile,
    pub path: String,
}

impl Container {
    /// The runnable artifact: the config's command below the container's root.
    pub fn cmd(&self) -> (r: String)
        ensures
            r@ == join_spec(self.path@, self.config.cmd@),
    {
        join_path(self.path.as_str(), self.config.cmd.as_str())
    }
}

} // verus!
