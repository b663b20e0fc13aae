use hpmq::change::{Change, ChangeKind, ChangeSet};
use hpmq::error::ImageError;
use hpmq::layer::{
    LayerStart, decimal_string, empty_layer, finish_layer, first_100, whiteout_path,
    written_of_kind, LAYER_MEDIA_TYPE,
};

const HELLO_SHA256: &str = "2cf24dba5fb0a30e26e83b2ac5b9e29e1b161e5c1fa7425e73043362938b9824";

#[test]
fn whiteout_names() {
    assert_eq!(whiteout_path("a"), ".wh.a");
    assert_eq!(whiteout_path("dir/sub/f.txt"), "dir/sub/.wh.f.txt");
}

#[test]
fn empty_change_set_writes_no_layer() {
    let (diff_id, d) = empty_layer(LAYER_MEDIA_TYPE);
    assert_eq!(diff_id, "<empty>");
    assert_eq!(d.digest, "<none>");
    assert_eq!(d.size, 0);
    assert_eq!(d.media_type, LAYER_MEDIA_TYPE);
}

#[test]
fn joins_at_most_one_hundred() {
    let v: Vec<String> = (0..150).map(|i| format!("p{}", i)).collect();
    let joined = first_100(&v);
    assert_eq!(joined.split(':').count(), 100);
    assert!(joined.starts_with("p0:p1:p2"));
    assert!(joined.ends_with("p99"));
    assert_eq!(first_100(&vec!["a".to_string()]), "a");
    assert_eq!(first_100(&vec![]), "");
}

#[test]
fn decimal_strings() {
    assert_eq!(decimal_string(0), "0");
    assert_eq!(decimal_string(7), "7");
    assert_eq!(decimal_string(1203), "1203");
}

#[test]
fn finished_layer_digests_and_annotations() {
    let cs = ChangeSet::new(
        "/src".to_string(),
        "/".to_string(),
        vec![
            Change::Added("a".to_string()),
            Change::Removed("b".to_string()),
            Change::Modified("c".to_string()),
        ],
    );
    let plan = cs.layer_entries();
    let written = vec![true, false, true];
    let r = finish_layer(
        LAYER_MEDIA_TYPE,
        b"hello",
        b"hello",
        "",
        3,
        &plan,
        &written,
        "1.0.0",
        "2024-01-02T03:04:05+00:00",
    );
    assert_eq!(r.diff_id, format!("sha256:{}", HELLO_SHA256));
    assert_eq!(r.descriptor.digest, r.diff_id);
    assert_eq!(r.descriptor.size, 5);
    let a = &r.descriptor.annotations;
    assert_eq!(a[0], ("io.stencila.version".to_string(), "1.0.0".to_string()));
    assert_eq!(
        a[1],
        ("io.stencila.layer.created".to_string(), "2024-01-02T03:04:05+00:00".to_string())
    );
    assert_eq!(a[2], ("io.stencila.layer.directory".to_string(), "".to_string()));
    assert_eq!(a[3], ("io.stencila.layer.changes".to_string(), "3".to_string()));
    assert!(a.contains(&("io.stencila.layer.additions".to_string(), "a".to_string())));
    assert!(a.contains(&("io.stencila.layer.deletions".to_string(), "b".to_string())));
    assert!(!a.iter().any(|(k, _)| k == "io.stencila.layer.modifications"));
    assert_eq!(written_of_kind(&plan, &written, ChangeKind::Removed), vec!["b".to_string()]);
}

#[test]
fn layer_start_decides_empty_write_or_refuse() {
    let empty = ChangeSet::new("/s".to_string(), "/".to_string(), vec![]);
    assert_eq!(empty.layer_start("application/vnd.oci.image.layer.v1.tar+gzip"), Ok(LayerStart::Empty));
    let some = ChangeSet::new("/s".to_string(), "/".to_string(), vec![Change::Added("a".to_string())]);
    assert_eq!(some.layer_start(LAYER_MEDIA_TYPE), Ok(LayerStart::Write));
    assert_eq!(
        some.layer_start("application/vnd.oci.image.layer.v1.tar+gzip"),
        Err(ImageError::UnsupportedMediaType)
    );
}
