use hpmq::build_config::BuildConfigBuilder;
use hpmq::error::ImageError;
use hpmq::image::{
    blob_hexes, container_plan, pull_plan, ConfigFile, Container, ContainerPlan, FileSystem, ImageAssembly,
    ImageManifest, RootFs,
};
use hpmq::instructions::{Dest, Kind};
use hpmq::layer::{Descriptor, LayerResult};
use hpmq::repositories::{full_name, ImageRef, Repositories};
use hpmq::tar_file::{tar_action, TarAction, TarEntryType};

fn image(registry: &str, repository: &str, whole: &str) -> ImageRef {
    ImageRef { registry: registry.to_string(), repository: repository.to_string(), whole: whole.to_string() }
}

#[test]
fn full_names() {
    assert_eq!(full_name(&image("", "demo", "demo:v1")), "demo");
    assert_eq!(full_name(&image("docker.io", "library/hello", "docker.io/library/hello:latest")), "docker.io/library/hello");
}

#[test]
fn update_then_lookup() {
    let mut r = Repositories::new();
    let img = image("", "demo", "demo:v1");
    assert!(r.image_digest(&img).is_none());
    assert_eq!(r.manifest_hex(&img), Err(ImageError::UnknownImage));
    r.update(&img, "sha256:abc".to_string());
    assert_eq!(r.image_digest(&img).unwrap(), "sha256:abc");
    assert_eq!(r.manifest_hex(&img).unwrap(), "abc");
    let other = image("", "demo", "demo:v2");
    assert!(r.image_digest(&other).is_none());
    r.update(&other, "bad".to_string());
    assert_eq!(r.manifest_hex(&other), Err(ImageError::InvalidDigest));
}

#[test]
fn update_twice_is_update_once() {
    let img = image("reg", "demo", "reg/demo:v1");
    let mut once = Repositories::new();
    once.update(&img, "sha256:abc".to_string());
    let mut twice = Repositories::new();
    twice.update(&img, "sha256:abc".to_string());
    twice.update(&img, "sha256:abc".to_string());
    assert_eq!(once.to_nested(), twice.to_nested());
    assert_eq!(
        once.to_nested(),
        vec![("reg/demo".to_string(), vec![("reg/demo:v1".to_string(), "sha256:abc".to_string())])]
    );
}

#[test]
fn nested_form_round_trips() {
    let mut r = Repositories::new();
    r.update(&image("", "a", "a:1"), "sha256:1".to_string());
    r.update(&image("", "a", "a:2"), "sha256:2".to_string());
    r.update(&image("r", "b", "r/b:1"), "sha256:3".to_string());
    r.update(&image("", "a", "a:1"), "sha256:4".to_string());
    let nested = r.to_nested();
    let back = Repositories::from_nested(nested.clone());
    assert_eq!(back.to_nested(), nested);
    assert_eq!(back.image_digest(&image("", "a", "a:1")).unwrap(), "sha256:4");
    let empty_inner = Repositories::from_nested(vec![("x".to_string(), vec![])]);
    assert_eq!(empty_inner.to_nested(), vec![("x".to_string(), vec![])]);
}

#[test]
fn destinations_parse() {
    let d = Dest::parse("/".to_string()).unwrap();
    assert_eq!(d.directory, None);
    assert_eq!(d.file_name, None);
    let d = Dest::parse("/config/abc.txt".to_string()).unwrap();
    assert_eq!(d.directory.as_deref(), Some("config"));
    assert_eq!(d.file_name.as_deref(), Some("abc.txt"));
    assert_eq!(d.origin, "/config/abc.txt");
    let d = Dest::parse("/abc/".to_string()).unwrap();
    assert_eq!(d.directory.as_deref(), Some("abc"));
    assert_eq!(d.file_name, None);
    let d = Dest::parse("config/abc.txt".to_string()).unwrap();
    assert_eq!(d.directory.as_deref(), Some("config"));
    assert!(matches!(Dest::parse("abc".to_string()), Err(ImageError::InvalidDestination)));
    assert!(matches!(Dest::parse("".to_string()), Err(ImageError::InvalidDestination)));
    let d = Dest::parse("//".to_string()).unwrap();
    assert_eq!(d.directory, None);
    assert_eq!(d.file_name, None);
    let d = Dest::parse("a/b/c".to_string()).unwrap();
    assert_eq!(d.directory.as_deref(), Some("a/b"));
    assert_eq!(d.file_name.as_deref(), Some("c"));
}

#[test]
fn destination_paths_and_copy_targets() {
    let d = Dest::parse("/config/abc.txt".to_string()).unwrap();
    assert_eq!(d.path_by_base("/root".to_string()), "/root/config/abc.txt");
    let s = hpmq::snapshot::Snapshot::init("/snap".to_string()).unwrap();
    let t = s.copy_in_target("./bin/hello", &Dest::parse("/".to_string()).unwrap()).unwrap();
    assert_eq!(t.directory, "/snap");
    assert_eq!(t.file, "/snap/hello");
    let t = s.copy_in_target("./bin/hello", &Dest::parse("/opt/".to_string()).unwrap()).unwrap();
    assert_eq!(t.file, "/snap/opt/hello");
    assert!(matches!(
        s.copy_in_target("/", &Dest::parse("/".to_string()).unwrap()),
        Err(ImageError::InvalidDestination)
    ));
}

#[test]
fn builder_needs_cmd_then_kind() {
    let b = BuildConfigBuilder::default();
    assert!(matches!(b.build(), Err(ImageError::MissingCmdEntry)));
    let mut b = BuildConfigBuilder::default();
    b.mut_cmd(Dest::parse("/hello".to_string()).unwrap());
    assert!(matches!(b.build(), Err(ImageError::MissingKindEntry)));
    let mut b = BuildConfigBuilder::default();
    b.mut_cmd(Dest::parse("/hello".to_string()).unwrap());
    b.mut_kind(Kind::Wasi);
    b.mut_kind(Kind::App);
    b.append_copy(hpmq::instructions::Copy("./bin/hello".to_string(), Dest::parse("/hello".to_string()).unwrap()));
    let c = b.build().unwrap();
    assert_eq!(c.kind, Kind::App);
    assert_eq!(c.copys.len(), 1);
    let cfg = ConfigFile::new(&c, vec!["sha256:1".to_string()]).unwrap();
    assert_eq!(cfg.cmd, "hello");
    assert_eq!(cfg.rootf.typ, "layers");
    assert_eq!(cfg.rootf.diff_ids, vec!["sha256:1".to_string()]);
}

#[test]
fn store_layout() {
    let fs = FileSystem::new("/home/u");
    assert_eq!(fs.root, "/home/u/.hpmq");
    assert_eq!(fs.layer_blobs(), "/home/u/.hpmq/layerdb/blobs/sha256");
    assert_eq!(fs.config_path("ab"), "/home/u/.hpmq/imagedb/sha256/ab");
    assert_eq!(fs.manifest_path("ab"), "/home/u/.hpmq/imagedb/manifests/sha256/ab");
    assert_eq!(fs.images_json(), "/home/u/.hpmq/imagedb/images.json");
    assert_eq!(fs.container_path("sha256:ab"), "/home/u/.hpmq/containerdb/sha256:ab");
    assert_eq!(fs.layer_blob_for("sha256:ab").unwrap(), "/home/u/.hpmq/layerdb/blobs/sha256/ab");
    assert_eq!(fs.layer_blob_for("ab"), Err(ImageError::InvalidDigest));
}

#[test]
fn container_cmd_is_below_its_root() {
    let c = Container {
        config: ConfigFile {
            kind: Kind::App,
            cmd: "hello".to_string(),
            rootf: RootFs { typ: "layers".to_string(), diff_ids: vec![] },
        },
        path: "/c/d".to_string(),
    };
    assert_eq!(c.cmd(), "/c/d/hello");
}

#[test]
fn assembly_keeps_layers_co_indexed() {
    let mut a = ImageAssembly::new();
    for i in 0..2 {
        a.add_layer(LayerResult {
            diff_id: format!("sha256:{}", i),
            descriptor: Descriptor {
                media_type: "m".to_string(),
                digest: format!("sha256:{}", i),
                size: 10,
                annotations: vec![("k".to_string(), "v".to_string())],
            },
        });
    }
    assert_eq!(a.diff_ids, vec!["sha256:0".to_string(), "sha256:1".to_string()]);
    assert_eq!(a.layers.len(), 2);
    assert!(a.layers[1].annotations.is_empty());
    let m = ImageManifest::new(
        Descriptor { media_type: "c".to_string(), digest: "sha256:c".to_string(), size: 1, annotations: vec![] },
        a.layers,
    );
    assert_eq!(m.schema_version, 2);
    assert_eq!(m.media_type, "application/vnd.oci.image.manifest.v1+json");
}

#[test]
fn blob_hexes_strip_each_digest() {
    let (c, ls) = blob_hexes("sha256:c", &vec!["sha256:a".to_string(), "sha256:b".to_string()]).unwrap();
    assert_eq!(c, "c");
    assert_eq!(ls, vec!["a".to_string(), "b".to_string()]);
    assert_eq!(blob_hexes("c", &vec![]), Err(ImageError::InvalidDigest));
    assert_eq!(blob_hexes("sha256:c", &vec!["b".to_string()]), Err(ImageError::InvalidDigest));
}

#[test]
fn tar_entries_become_actions() {
    assert!(matches!(tar_action("dir/.wh.f".to_string(), "/c", TarEntryType::File), TarAction::Remove(p) if p == "/c/dir/f"));
    assert!(matches!(tar_action(".wh.d".to_string(), "/c", TarEntryType::Directory), TarAction::Remove(p) if p == "/c/d"));
    assert!(matches!(tar_action("x/.wh.l".to_string(), "/c", TarEntryType::Other), TarAction::Remove(p) if p == "/c/x/l"));
    assert!(matches!(tar_action("bin/sh".to_string(), "/c", TarEntryType::Symlink), TarAction::CreateSymlink(p) if p == "/c/bin/sh"));
    assert!(matches!(tar_action("hello".to_string(), "/c", TarEntryType::File), TarAction::WriteFile(p) if p == "/c/hello"));
    assert!(matches!(tar_action("usr/".to_string(), "/c", TarEntryType::Directory), TarAction::CreateDir(p) if p == "/c/usr/"));
    assert!(matches!(tar_action("dev".to_string(), "/c", TarEntryType::Other), TarAction::Skip));
}

#[test]
fn pull_fetches_config_first_and_skips_stored_blobs() {
    let layers = vec!["a".to_string(), "b".to_string(), "c".to_string()];
    let plan: Vec<(bool, usize, String)> = pull_plan(&"cfg".to_string(), false, &layers, &vec![false, true, false])
        .into_iter()
        .map(|f| (f.config, f.index, f.hex))
        .collect();
    assert_eq!(
        plan,
        vec![(true, 0, "cfg".to_string()), (false, 0, "a".to_string()), (false, 2, "c".to_string())]
    );
    assert!(pull_plan(&"cfg".to_string(), true, &layers, &vec![true, true, true]).is_empty());
}

#[test]
fn materializing_reuses_or_rebuilds() {
    assert_eq!(container_plan(false, true), ContainerPlan::Reuse);
    assert_eq!(container_plan(true, true), ContainerPlan::ClearAndExtract);
    assert_eq!(container_plan(true, false), ContainerPlan::Extract);
    assert_eq!(container_plan(false, false), ContainerPlan::Extract);
}

#[test]
fn fork_keeps_the_destination() {
    let s = hpmq::snapshot::Snapshot { path: "/a".to_string(), dest_dir: "/opt".to_string() };
    let f = s.forked("/b".to_string());
    assert_eq!(f.path, "/b");
    assert_eq!(f.dest_dir, "/opt");
}
