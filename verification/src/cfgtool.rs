//! The configuration file that `cfgtool` validates and migrates.
//!
//! A file is JSON with a `version` field. This build reads versions 1 and 2, and writes 2.
//! Version 1 wrote `workers: 0` for one worker per core; version 2 writes `"auto"` and rejects
//! zero. A count is from 1 to `Workers::MAX`. `listen` is the socket address the server binds.
//!
//! This module holds the meaning of a stored file: [`Config::try_from`] checks a [`Stored`]
//! form and [`Stored::from_config`] gives the version 2 form of a configuration. Reading and
//! writing the files, and the JSON itself, are done around it.
use vstd::prelude::*;
use vstd::string::*;

use crate::text::{decimal, push_decimal, same_text};

verus! {

broadcast use vstd::string::group_string_axioms;

/// The configuration version this build writes.
pub const VERSION: u8 = 2;

/// How many workers to start.
#[derive(Copy, Clone, PartialEq, Eq, Debug, Structural)]
pub enum Workers {
    /// One per core, decided at start.
    Auto,
    /// A fixed count from 1 to `Workers::MAX`.
    Fixed(u32),
}

/// A worker count outside `1..=Workers::MAX`.
#[derive(Debug, Copy, Clone, PartialEq, Eq, Structural)]
pub struct WorkersOutOfRange(pub u32);

impl Workers {
    /// The most workers a configuration may ask for.
    pub const MAX: u32 = 64;

    /// One per core, or a count from 1 to `Workers::MAX`.
    pub open spec fn valid(self) -> bool {
        match self {
            Workers::Auto => true,
            Workers::Fixed(count) => 1 <= count <= Self::MAX,
        }
    }

    /// A fixed count, or `None` outside `1..=Workers::MAX`.
    pub fn fixed(count: u32) -> (r: Option<Self>)
        ensures
            r == if 1 <= count <= Self::MAX {
                Some(Workers::Fixed(count))
            } else {
                None
            },
    {
        if count > Self::MAX {
            return None;
        }
        if count == 0 {
            None
        } else {
            Some(Workers::Fixed(count))
        }
    }
}

impl Workers {
    /// The count as a file and a report write it: `auto`, or the number in decimal.
    pub fn to_text(&self) -> (r: String)
        ensures
            r@ == match *self {
                Workers::Auto => auto_word(),
                Workers::Fixed(count) => decimal(count as nat),
            },
    {
        match *self {
            Workers::Auto => {
                proof {
                    reveal_strlit("auto");
                }
                String::from_str("auto")
            },
            Workers::Fixed(count) => {
                let mut r = String::new();
                push_decimal(&mut r, count as u64);
                r
            },
        }
    }
}

/// A loaded configuration, whichever version wrote it.
#[derive(Clone, PartialEq, Eq, Debug)]
pub struct Config {
    /// The version the file named.
    pub version: u8,
    /// How many workers to start.
    pub workers: Workers,
    /// The socket address the server binds.
    pub listen: String,
}

/// The stored form of every version. Structure only: the meaning is checked by
/// `Config::try_from`.
#[derive(Clone, Debug)]
pub struct Stored {
    /// The version the file names.
    pub version: u8,
    /// The worker count as the file wrote it.
    pub workers: StoredWorkers,
    /// The socket address.
    pub listen: String,
}

/// Version 1 wrote a number. Version 2 writes a number or the word `auto`.
#[derive(Clone, Debug)]
pub enum StoredWorkers {
    /// A number.
    Count(u32),
    /// A word.
    Word(String),
}

/// Why a stored configuration has no meaning this build accepts.
#[derive(Debug, Clone, PartialEq, Eq)]
pub enum ConfigError {
    /// The version is not one this build reads.
    UnsupportedVersion(u8),
    /// The count is outside the range. Version 1's zero is migrated, not rejected.
    Workers(WorkersOutOfRange),
    /// The word is not one version 2 defines.
    UnknownWord(String),
}

/// The word version 2 writes for one worker per core.
pub open spec fn auto_word() -> Seq<char> {
    seq!['a', 'u', 't', 'o']
}

/// Whether this build reads files of version `version`.
pub open spec fn reads_version(version: u8) -> bool {
    version == 1 || version == 2
}

impl TryFrom<Stored> for Config {
    type Error = ConfigError;

    fn try_from(stored: Stored) -> (r: Result<Self, ConfigError>) {
        let version = stored.version;
        let workers = match stored.workers {
            StoredWorkers::Count(count) => {
                if version == 1 && count == 0 {
                    // Version 1 wrote zero for "one per core". The meaning is kept.
                    Workers::Auto
                } else if version == 1 || version == 2 {
                    match Workers::fixed(count) {
                        Some(w) => w,
                        None => {
                            return Err(ConfigError::Workers(WorkersOutOfRange(count)));
                        },
                    }
                } else {
                    return Err(ConfigError::UnsupportedVersion(version));
                }
            },
            StoredWorkers::Word(word) => {
                proof {
                    reveal_strlit("auto");
                    assert("auto"@ =~= auto_word());
                }
                if version == 2 && same_text(word.as_str(), "auto") {
                    Workers::Auto
                } else if version == 1 || version == 2 {
                    return Err(ConfigError::UnknownWord(word));
                } else {
                    return Err(ConfigError::UnsupportedVersion(version));
                }
            },
        };
        Ok(Config { version, workers, listen: stored.listen })
    }
}

impl vstd::std_specs::convert::TryFromSpecImpl<Stored> for Config {
    open spec fn obeys_try_from_spec() -> bool {
        true
    }

    open spec fn try_from_spec(stored: Stored) -> Result<Self, ConfigError> {
        config_from(stored)
    }
}

/// A file of a version this build reads means: a version 1 zero is one worker per core,
/// another count is that many workers if it is in range, and the word `auto` of version
/// 2 is one worker per core. Anything else is refused, and the version is checked first.
pub open spec fn config_from(stored: Stored) -> Result<Config, ConfigError> {
    let v = stored.version;
    match stored.workers {
        StoredWorkers::Count(count) => {
            if !reads_version(v) {
                Err(ConfigError::UnsupportedVersion(v))
            } else if v == 1 && count == 0 {
                Ok(Config { version: v, workers: Workers::Auto, listen: stored.listen })
            } else if 1 <= count <= Workers::MAX {
                Ok(Config { version: v, workers: Workers::Fixed(count), listen: stored.listen })
            } else {
                Err(ConfigError::Workers(WorkersOutOfRange(count)))
            }
        },
        StoredWorkers::Word(word) => {
            if !reads_version(v) {
                Err(ConfigError::UnsupportedVersion(v))
            } else if v == 2 && word@ == auto_word() {
                Ok(Config { version: v, workers: Workers::Auto, listen: stored.listen })
            } else {
                Err(ConfigError::UnknownWord(word))
            }
        },
    }
}

impl Stored {
    /// The version 2 form of `config`, whichever version was loaded: one worker per core is
    /// the word `auto`, a count is the number.
    pub fn from_config(config: Config) -> (r: Stored)
        ensures
            r.version == VERSION,
            r.listen@ == config.listen@,
            match config.workers {
                Workers::Auto => r.workers matches StoredWorkers::Word(w) && w@ == auto_word(),
                Workers::Fixed(count) => r.workers matches StoredWorkers::Count(c) && c == count,
            },
    {
        let workers = match config.workers {
            Workers::Auto => {
                proof {
                    reveal_strlit("auto");
                }
                StoredWorkers::Word(String::from_str("auto"))
            },
            Workers::Fixed(count) => StoredWorkers::Count(count),
        };
        Stored { version: VERSION, workers, listen: config.listen }
    }
}

/// Whatever version wrote a file, what it loads as means something this build accepts: a
/// version it reads, and a worker count in range.
pub proof fn law_loaded_configs_are_valid(stored: Stored)
    ensures
        config_from(stored) matches Ok(c) ==> c.workers.valid() && reads_version(
            c.version,
        ) && c.version == stored.version && c.listen == stored.listen,
{
}

/// Migration keeps the meaning: the version 2 form of a valid configuration loads as the
/// same workers and address, under version 2.
pub proof fn law_migrated_form_loads_the_same(config: Config, stored: Stored)
    requires
        config.workers.valid(),
        stored.version == VERSION,
        stored.listen@ == config.listen@,
        match config.workers {
            Workers::Auto => stored.workers matches StoredWorkers::Word(w) && w@ == auto_word(),
            Workers::Fixed(count) => stored.workers matches StoredWorkers::Count(c) && c == count,
        },
    ensures
        config_from(stored) matches Ok(c) && c.version == VERSION && c.workers
            == config.workers && c.listen@ == config.listen@,
{
}

/// A version 1 zero, "one worker per core", loads as `Auto` and migrates to the word `auto`.
pub proof fn law_version_1_zero_is_auto(stored: Stored)
    requires
        stored.version == 1,
        stored.workers matches StoredWorkers::Count(c) && c == 0,
    ensures
        config_from(stored) matches Ok(c) && c.workers == Workers::Auto,
{
}

} // verus!
