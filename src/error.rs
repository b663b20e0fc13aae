use vstd::prelude::*;

verus! {

/// The error kinds that the library reports.
#[derive(Debug, Clone, Copy, PartialEq, Eq, Structural)]
pub enum ImageError {
    /// A digest string that is not of the form `algorithm:hex`.
    InvalidDigest,
    /// A reference that the repositories index does not hold.
    UnknownImage,
    /// The entrypoint named by a build recipe is absent from the final snapshot.
    MissingCmd,
    /// A destination string that holds no `/`, or a source without a file name.
    InvalidDestination,
    /// A layer media type that the layer writer does not produce.
    UnsupportedMediaType,
    /// A build recipe without a `CMD` entry.
    MissingCmdEntry,
    /// A build recipe without a `KIND` entry.
    MissingKindEntry,
}

} // verus!
