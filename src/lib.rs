//! A small OCI image toolkit: snapshots of directory trees, change sets between
//! them, layer plans with whiteouts, a content-addressed store layout and the
//! index that maps image references to manifest digests.
pub mod build_config;
pub mod change;
pub mod digest;
pub mod error;
pub mod hashing;
pub mod image;
pub mod instructions;
pub mod layer;
pub mod paths;
pub mod replay;
pub mod repositories;
pub mod snapshot;
pub mod str_map;
pub mod tar_file;
pub mod text;
