//! A build recipe, and the builder that collects its instructions.
use vstd::prelude::*;

use crate::error::ImageError;
use crate::instructions::{Dest, Kind};

verus! {

/// A complete build recipe.
#[derive(Debug)]
pub struct BuildConfig {
    pub kind: Kind,
    pub copys: Vec<crate::instructions::Copy>,
    pub cmd: Dest,
}

/// Collects the instructions of a recipe before it is complete.
pub struct BuildConfigBuilder {
    pub kind: Option<Kind>,
    pub copys: Vec<crate::instructions::Copy>,
    pub cmd: Option<Dest>,
}

impl Default for BuildConfigBuilder {
    fn default() -> (r: BuildConfigBuilder)
        ensures
            r.kind.is_none(),
            r.copys@.len() == 0,
            r.cmd.is_none(),
    {
        BuildConfigBuilder { kind: None, copys: Vec::new(), cmd: None }
    }
}

impl BuildConfigBuilder {
    /// The recipe; fails when the `CMD` entry, or else the `KIND` entry, is missing.
    pub fn build(self) -> (r: Result<BuildConfig, ImageError>)
        ensures
            self.cmd.is_none() ==> r == Err::<BuildConfig, ImageError>(ImageError::MissingCmdEntry),
            self.cmd.is_some() && self.kind.is_none() ==> r == Err::<BuildConfig, ImageError>(
                ImageError::MissingKindEntry,
            ),
            self.cmd.is_some() && self.kind.is_some() ==> r.is_ok(),
            r.is_ok() ==> ({
                let c = r->Ok_0;
                &&& self.kind == Some(c.kind)
                &&& self.cmd == Some(c.cmd)
                &&& c.copys == self.copys
            }),
    {
        match self.cmd {
            Some(cmd) => match self.kind {
                Some(kind) => Ok(BuildConfig { cmd, kind, copys: self.copys }),
                None => Err(ImageError::MissingKindEntry),
            },
            None => Err(ImageError::MissingCmdEntry),
        }
    }

    /// Adds a copy instruction after those already held.
    pub fn append_copy(&mut self, copy: crate::instructions::Copy)
        ensures
            final(self).copys@ == old(self).copys@.push(copy),
            final(self).kind == old(self).kind,
            final(self).cmd == old(self).cmd,
    {
        self.copys.push(copy);
    }

    /// Sets the command; a later one replaces an earlier one.
    pub fn mut_cmd(&mut self, cmd: Dest)
        ensures
            final(self).cmd == Some(cmd),
            final(self).kind == old(self).kind,
            final(self).copys == old(self).copys,
    {
        self.cmd = Some(cmd);
    }

    /// Sets the kind; a later one replaces an earlier one.
    pub fn mut_kind(&mut self, kind: Kind)
        ensures
            final(self).kind == Some(kind),
            final(self).cmd == old(self).cmd,
            final(self).copys == old(self).copys,
    {
        self.kind = Some(kind);
    }
}

} // verus!
