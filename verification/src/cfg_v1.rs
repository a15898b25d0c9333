//! The version 1 configuration file.
//!
//! A file is JSON with a `version` field, and version 1 is the one this reader takes.
//! `workers` is a count, where zero means one worker per core. `listen` is the socket address
//! the server binds. Reading the file and the JSON are done around this module; the check
//! of what was read is here.
use vstd::prelude::*;

verus! {

/// The configuration version this reader takes.
pub const VERSION: u8 = 1;

/// A loaded configuration.
#[derive(Clone, PartialEq, Eq, Debug)]
pub struct Config {
    /// The file's version.
    pub version: u8,
    /// The worker count. Zero means one worker per core.
    pub workers: u32,
    /// The socket address the server binds.
    pub listen: String,
}

/// The file names a version this reader does not take.
#[derive(Copy, Clone, PartialEq, Eq, Debug, Structural)]
pub struct UnsupportedVersion(pub u8);

impl Config {
    /// The configuration as read, when its version is `VERSION`.
    pub fn check(self) -> (r: Result<Config, UnsupportedVersion>)
        ensures
            self.version == VERSION ==> r == Ok::<Config, UnsupportedVersion>(self),
            self.version != VERSION ==> r == Err::<Config, UnsupportedVersion>(
                UnsupportedVersion(self.version),
            ),
    {
        if self.version != VERSION {
            return Err(UnsupportedVersion(self.version));
        }
        Ok(self)
    }
}

} // verus!
