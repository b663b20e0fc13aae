//! Slash-separated paths, joined the way a Unix path is extended.
use vstd::prelude::*;

use crate::text::{concat, strip_leading, substring};

verus! {

/// `p` appended to `base`: an absolute `p` replaces `base`, an empty `base`
/// gives `p`, and otherwise one `/` separates the two.
pub open spec fn join_spec(base: Seq<char>, p: Seq<char>) -> Seq<char> {
    if p.len() > 0 && p[0] == '/' {
        p
    } else if base.len() == 0 {
        p
    } else if base.last() == '/' {
        base + p
    } else {
        base + seq!['/'] + p
    }
}

/// Appends `p` to `base`.
pub fn join_path(base: &str, p: &str) -> (r: String)
    ensures
        r@ == join_spec(base@, p@),
{
    let n = base.unicode_len();
    let m = p.unicode_len();
    if m > 0 && p.get_char(0) == '/' {
        return p.to_owned();
    }
    if n == 0 {
        return p.to_owned();
    }
    if base.get_char(n - 1) == '/' {
        concat(base, p)
    } else {
        let slash = "/";
        proof {
            reveal_strlit("/");
        }
        let with_slash = concat(base, slash);
        let r = concat(with_slash.as_str(), p);
        assert(slash@ =~= seq!['/']);
        r
    }
}

/// `s` without its leading `/` characters.
pub fn strip_leading_slashes(s: &str) -> (r: String)
    ensures
        r@ == strip_leading(s@, '/'),
{
    let n = s.unicode_len();
    let mut i: usize = 0;
    assert(s@.subrange(0, n as int) =~= s@);
    while i < n && s.get_char(i) == '/'
        invariant
            i <= n,
            n == s@.len(),
            strip_leading(s@, '/') == strip_leading(s@.subrange(i as int, n as int), '/'),
        decreases n - i,
    {
        assert(s@.subrange(i as int, n as int).drop_first() =~= s@.subrange(i + 1, n as int));
        i = i + 1;
    }
    substring(s, i, n)
}

} // verus!
