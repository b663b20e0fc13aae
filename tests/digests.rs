use hpmq::digest::{get_digest, parse_digest, sha256_pre, DigestPre};
use hpmq::error::ImageError;
use hpmq::image::{blob_digest, config_descriptor, CONFIG_MEDIA_TYPE};
use hpmq::layer::diff_id_of;

const HELLO_SHA256: &str = "2cf24dba5fb0a30e26e83b2ac5b9e29e1b161e5c1fa7425e73043362938b9824";
const EMPTY_SHA256: &str = "e3b0c44298fc1c149afbf4c8996fb92427ae41e4649b934ca495991b7852b855";

#[test]
fn format_then_parse_gives_the_hex_back() {
    let d = sha256_pre(HELLO_SHA256);
    assert_eq!(d, format!("sha256:{}", HELLO_SHA256));
    assert_eq!(parse_digest(&d).unwrap(), HELLO_SHA256);
    assert_eq!(get_digest(&d).unwrap(), HELLO_SHA256);
    assert_eq!(sha256_pre(&parse_digest(&d).unwrap()), d);
}

#[test]
fn get_digest_takes_what_follows_the_first_colon() {
    assert_eq!(get_digest("md5:abc").unwrap(), "abc");
    assert_eq!(get_digest("a:b:c").unwrap(), "b:c");
    assert_eq!(get_digest("sha256:").unwrap(), "");
    assert_eq!(get_digest(":abc"), Err(ImageError::InvalidDigest));
    assert_eq!(get_digest("abc"), Err(ImageError::InvalidDigest));
}

#[test]
fn parse_digest_refuses_malformed_digests() {
    assert_eq!(parse_digest("sha256:abc"), Err(ImageError::InvalidDigest));
    let upper = format!("sha256:{}", HELLO_SHA256.to_uppercase());
    assert_eq!(parse_digest(&upper), Err(ImageError::InvalidDigest));
    let md5 = format!("sha512:{}", HELLO_SHA256);
    assert_eq!(parse_digest(&md5), Err(ImageError::InvalidDigest));
}

#[test]
fn digest_trait_on_strings() {
    let hex = HELLO_SHA256.to_string();
    let d = hex.sha256_pre();
    assert_eq!(d.get_digest().unwrap(), hex);
}

#[test]
fn hashes_of_known_bytes() {
    assert_eq!(blob_digest(b"hello"), HELLO_SHA256);
    assert_eq!(blob_digest(b""), EMPTY_SHA256);
    assert_eq!(diff_id_of(b"hello"), format!("sha256:{}", HELLO_SHA256));
}

#[test]
fn config_descriptor_names_the_blob() {
    let d = config_descriptor(b"hello");
    assert_eq!(d.media_type, CONFIG_MEDIA_TYPE);
    assert_eq!(d.digest, format!("sha256:{}", HELLO_SHA256));
    assert_eq!(d.size, 5);
    assert!(d.annotations.is_empty());
}
