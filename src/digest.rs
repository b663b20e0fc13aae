//! Digests of the form `algorithm:hex`.
use vstd::prelude::*;

use crate::error::ImageError;
use crate::hashing::{is_lower_hex, is_lower_hex_digit};
use crate::text::{concat, find_char, first_index_of, lemma_first_index_of, substring};

verus! {

/// The prefix of a SHA-256 digest: `sha256:`.
pub open spec fn sha256_prefix() -> Seq<char> {
    seq!['s', 'h', 'a', '2', '5', '6', ':']
}

/// `sha256:` followed by `hex`.
pub open spec fn prefixed(hex: Seq<char>) -> Seq<char> {
    sha256_prefix() + hex
}

/// What follows the first `:` of `d`, when at least one character precedes it.
pub open spec fn strip_algorithm(d: Seq<char>) -> Option<Seq<char>> {
    let k = first_index_of(d, ':');
    if k >= 1 {
        Some(d.subrange(k + 1, d.len() as int))
    } else {
        None
    }
}

/// `d` is `sha256:` followed by 64 lowercase hex digits.
pub open spec fn is_sha256_digest(d: Seq<char>) -> bool {
    &&& d.len() == 71
    &&& d.subrange(0, 7) == sha256_prefix()
    &&& is_lower_hex(d.subrange(7, 71))
}

/// The SHA-256 digest string for a hex hash: `"sha256:" + hex`.
pub fn sha256_pre(hex: &str) -> (r: String)
    ensures
        r@ == prefixed(hex@),
{
    let p = "sha256:";
    proof {
        reveal_strlit("sha256:");
    }
    concat(p, hex)
}

/// The hex part of an `algorithm:hex` digest: what follows the first `:`.
pub fn get_digest(d: &str) -> (r: Result<String, ImageError>)
    ensures
        match r {
            Ok(h) => strip_algorithm(d@) == Some(h@),
            Err(e) => strip_algorithm(d@).is_none() && e == ImageError::InvalidDigest,
        },
{
    proof {
        lemma_first_index_of(d@, ':');
    }
    match find_char(d, ':') {
        Some(k) => {
            if k >= 1 {
                let n = d.unicode_len();
                Ok(substring(d, k + 1, n))
            } else {
                Err(ImageError::InvalidDigest)
            }
        },
        None => Err(ImageError::InvalidDigest),
    }
}

/// Whether `c` is one of `0-9a-f`.
fn is_lower_hex_char(c: char) -> (r: bool)
    ensures
        r == is_lower_hex_digit(c),
{
    ('0' <= c && c <= '9') || ('a' <= c && c <= 'f')
}

/// Checks that `d` is `sha256:` followed by 64 lowercase hex digits, and gives the hex part.
pub fn parse_digest(d: &str) -> (r: Result<String, ImageError>)
    ensures
        r.is_ok() == is_sha256_digest(d@),
        match r {
            Ok(h) => prefixed(h@) == d@ && h@.len() == 64,
            Err(e) => e == ImageError::InvalidDigest,
        },
{
    let n = d.unicode_len();
    if n != 71 {
        return Err(ImageError::InvalidDigest);
    }
    let p = "sha256:";
    proof {
        reveal_strlit("sha256:");
    }
    let mut i: usize = 0;
    while i < 7
        invariant
            i <= 7,
            n == d@.len() == 71,
            p@ == sha256_prefix(),
            forall|j: int| 0 <= j < i ==> d@[j] == sha256_prefix()[j],
        decreases 7 - i,
    {
        if d.get_char(i) != p.get_char(i) {
            assert(d@.subrange(0, 7)[i as int] != sha256_prefix()[i as int]);
            return Err(ImageError::InvalidDigest);
        }
        i = i + 1;
    }
    assert(d@.subrange(0, 7) =~= sha256_prefix());
    while i < 71
        invariant
            7 <= i <= 71,
            n == d@.len() == 71,
            forall|j: int| 7 <= j < i ==> is_lower_hex_digit(#[trigger] d@[j]),
        decreases 71 - i,
    {
        let c = d.get_char(i);
        if !is_lower_hex_char(c) {
            assert(d@.subrange(7, 71)[i - 7] == c);
            return Err(ImageError::InvalidDigest);
        }
        i = i + 1;
    }
    assert forall|j: int| 0 <= j < 64 implies is_lower_hex_digit(#[trigger] d@.subrange(7, 71)[j]) by {
        assert(d@.subrange(7, 71)[j] == d@[j + 7]);
    }
    let h = substring(d, 7, 71);
    assert(prefixed(h@) =~= d@);
    Ok(h)
}

/// Stripping the algorithm from a formatted digest gives the hex part back.
pub proof fn lemma_strip_prefixed(hex: Seq<char>)
    ensures
        strip_algorithm(prefixed(hex)) == Some(hex),
{
    let d = prefixed(hex);
    lemma_first_index_of(d, ':');
    assert(d[6] == ':');
    assert forall|j: int| 0 <= j < 6 implies d[j] != ':' by {
        assert(d[j] == sha256_prefix()[j]);
    }
    assert(first_index_of(d, ':') == 6);
    assert(d.subrange(7, d.len() as int) =~= hex);
}

/// Formatting 64 lowercase hex digits gives a valid SHA-256 digest.
pub proof fn lemma_prefixed_valid(hex: Seq<char>)
    requires
        hex.len() == 64,
        is_lower_hex(hex),
    ensures
        is_sha256_digest(prefixed(hex)),
{
    let d = prefixed(hex);
    assert(d.subrange(0, 7) =~= sha256_prefix());
    assert(d.subrange(7, 71) =~= hex);
}

/// A valid SHA-256 digest is the formatting of its own hex part.
pub proof fn lemma_prefixed_strip(d: Seq<char>)
    requires
        is_sha256_digest(d),
    ensures
        strip_algorithm(d) == Some(d.subrange(7, 71)),
        prefixed(d.subrange(7, 71)) == d,
{
    assert(d =~= prefixed(d.subrange(7, 71))) by {
        assert forall|j: int| 0 <= j < 7 implies d[j] == sha256_prefix()[j] by {
            assert(d.subrange(0, 7)[j] == d[j]);
        }
    }
    lemma_strip_prefixed(d.subrange(7, 71));
}

/// Digest helpers on strings.
pub trait DigestPre {
    /// The characters of the value.
    spec fn chars(&self) -> Seq<char>;

    /// `"sha256:"` followed by this string.
    fn sha256_pre(&self) -> (r: String)
        ensures
            r@ == prefixed(self.chars()),
    ;

    /// What follows the first `:` of this string.
    fn get_digest(&self) -> (r: Result<String, ImageError>)
        ensures
            match r {
                Ok(h) => strip_algorithm(self.chars()) == Some(h@),
                Err(e) => strip_algorithm(self.chars()).is_none() && e == ImageError::InvalidDigest,
            },
    ;
}

impl DigestPre for String {
    open spec fn chars(&self) -> Seq<char> {
        self@
    }

    fn sha256_pre(&self) -> (r: String) {
        sha256_pre(self.as_str())
    }

    fn get_digest(&self) -> (r: Result<String, ImageError>) {
        get_digest(self.as_str())
    }
}

} // verus!
