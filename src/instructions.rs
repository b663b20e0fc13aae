//! Build recipe instructions and the destination grammar.
use vstd::prelude::*;

use crate::error::ImageError;
use crate::paths::{join_path, join_spec};
use crate::text::{
    last_index_of, lemma_last_index_of, non_empty, opt_view, rfind_char, strip_first, substring,
};

verus! {

/// One instruction of a build recipe.
pub enum Instruction {
    Kind(Kind),
    Copy(Copy),
    Cmd(Dest),
}

/// Copies a local file (the first field) into the image at a destination.
#[derive(Debug)]
pub struct Copy(pub String, pub Dest);

/// What kind of artifact an image runs.
#[derive(Debug, Clone, Copy, PartialEq, Eq, Structural)]
pub enum Kind {
    Wasi,
    App,
}

/// A destination inside the image: an optional directory and an optional file name.
#[derive(Debug)]
pub struct Dest {
    /// The text the destination was parsed from.
    pub origin: String,
    /// The directory, relative to the image root; `None` for the root itself.
    pub directory: Option<String>,
    /// The file name; `None` keeps the source's own name.
    pub file_name: Option<String>,
}

/// The mathematical value of a [`Dest`].
pub struct DestView {
    pub origin: Seq<char>,
    pub directory: Option<Seq<char>>,
    pub file_name: Option<Seq<char>>,
}

impl View for Dest {
    type V = DestView;

    open spec fn view(&self) -> DestView {
        DestView {
            origin: self.origin@,
            directory: opt_view(self.directory),
            file_name: opt_view(self.file_name),
        }
    }
}

/// The text before the last `/` of `s` and the text after it, or `None` when `s` holds no `/`.
pub open spec fn split_last_slash_spec(s: Seq<char>) -> Option<(Seq<char>, Seq<char>)> {
    let k = last_index_of(s, '/');
    if k < 0 {
        None
    } else {
        Some((s.subrange(0, k), s.subrange(k + 1, s.len() as int)))
    }
}

/// The destination that `s` denotes: the text before the last `/`, without a
/// leading `/`, is the directory, and the text after it the file name; empty
/// parts are absent. `None` when `s` holds no `/`.
pub open spec fn parse_dest_spec(s: Seq<char>) -> Option<DestView> {
    match split_last_slash_spec(s) {
        Some((dir, file)) => Some(
            DestView {
                origin: s,
                directory: non_empty(strip_first(dir, '/')),
                file_name: non_empty(file),
            },
        ),
        None => None,
    }
}

/// Where a destination lands below `base`: the directory, then the file name, each when present.
pub open spec fn dest_path_spec(d: DestView, base: Seq<char>) -> Seq<char> {
    let with_dir = match d.directory {
        Some(dir) => join_spec(base, dir),
        None => base,
    };
    match d.file_name {
        Some(f) => join_spec(with_dir, f),
        None => with_dir,
    }
}

/// The text before the last `/` of `s` and the text after it.
pub fn split_last_slash(s: &str) -> (r: Option<(String, String)>)
    ensures
        match r {
            Some((a, b)) => split_last_slash_spec(s@) == Some((a@, b@)),
            None => split_last_slash_spec(s@).is_none(),
        },
{
    proof {
        lemma_last_index_of(s@, '/');
    }
    match rfind_char(s, '/') {
        Some(k) => {
            let n = s.unicode_len();
            Some((substring(s, 0, k), substring(s, k + 1, n)))
        },
        None => None,
    }
}

fn non_empty_string(s: String) -> (r: Option<String>)
    ensures
        opt_view(r) == non_empty(s@),
{
    if s.unicode_len() == 0 {
        None
    } else {
        Some(s)
    }
}

impl Dest {
    /// Parses a destination; fails with `InvalidDestination` when `value` holds no `/`.
    pub fn parse(value: String) -> (r: Result<Dest, ImageError>)
        ensures
            match r {
                Ok(d) => parse_dest_spec(value@) == Some(d@),
                Err(e) => parse_dest_spec(value@).is_none() && e == ImageError::InvalidDestination,
            },
    {
        match split_last_slash(value.as_str()) {
            Some((dir, file)) => {
                let n = dir.unicode_len();
                let stripped = if n > 0 && dir.get_char(0) == '/' {
                    substring(dir.as_str(), 1, n)
                } else {
                    dir
                };
                let directory = non_empty_string(stripped);
                let file_name = non_empty_string(file);
                Ok(Dest { origin: value, directory, file_name })
            },
            None => Err(ImageError::InvalidDestination),
        }
    }

    /// The path of this destination below `base`.
    pub fn path_by_base(&self, base: String) -> (r: String)
        ensures
            r@ == dest_path_spec(self@, base@),
    {
        let with_dir = match &self.directory {
            Some(dir) => join_path(base.as_str(), dir.as_str()),
            None => base,
        };
        match &self.file_name {
            Some(f) => join_path(with_dir.as_str(), f.as_str()),
            None => with_dir,
        }
    }
}

/// Every string that holds a `/` parses, and every string that holds none is refused.
pub proof fn lemma_parse_dest_total(s: Seq<char>)
    ensures
        parse_dest_spec(s).is_some() <==> s.contains('/'),
{
    lemma_last_index_of(s, '/');
    if s.contains('/') {
        let i = choose|i: int| 0 <= i < s.len() && s[i] == '/';
        assert(last_index_of(s, '/') >= i);
    } else {
        if last_index_of(s, '/') >= 0 {
            assert(s[last_index_of(s, '/')] == '/');
        }
    }
}

} // verus!
