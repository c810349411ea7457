use vstd::prelude::*;

verus! {

/// Side length, in hash cells, used when no resolution is given.
pub const DEFAULT_RESOLUTION: u32 = 10;

/// Largest accepted side length: the hash holds `resolution * resolution`
/// bits, a count the hashing primitive keeps in a `u32`.
pub const MAX_RESOLUTION: u32 = 65535;

/// Why a hash configuration was refused.
#[derive(Clone, Copy, Debug, PartialEq, Eq, Structural)]
pub enum ConfigError {
    /// A resolution of zero gives a hash with no bits.
    ZeroResolution,
    /// A resolution above `MAX_RESOLUTION`.
    ResolutionTooLarge,
}

/// The settings of one run's hash function. Hashes made under two
/// different configurations are never compared.
#[derive(Clone, Copy, Debug, PartialEq, Eq, Structural)]
pub struct HashConfig {
    pub resolution: u32,
    pub use_dct: bool,
}

impl HashConfig {
    /// A configuration that the hashing primitive accepts.
    pub open spec fn wf(self) -> bool {
        1 <= self.resolution <= MAX_RESOLUTION
    }

    /// The configuration chosen by an optional resolution (the default when
    /// absent) and the choice of frequency-domain preprocessing, or why none is.
    pub open spec fn chosen(resolution: Option<u32>, use_dct: bool) -> Result<
        HashConfig,
        ConfigError,
    > {
        let res = match resolution {
            Some(n) => n,
            None => DEFAULT_RESOLUTION,
        };
        if res == 0 {
            Err(ConfigError::ZeroResolution)
        } else if res > MAX_RESOLUTION {
            Err(ConfigError::ResolutionTooLarge)
        } else {
            Ok(HashConfig { resolution: res, use_dct })
        }
    }

    /// Builds a configuration from an optional resolution (the default when
    /// absent) and the choice of frequency-domain preprocessing.
    pub fn new(resolution: Option<u32>, use_dct: bool) -> (r: Result<HashConfig, ConfigError>)
        ensures
            r == HashConfig::chosen(resolution, use_dct),
            r is Ok ==> r->Ok_0.wf(),
    {
        let res: u32 = match resolution {
            Some(n) => n,
            None => DEFAULT_RESOLUTION,
        };
        if res == 0 {
            Err(ConfigError::ZeroResolution)
        } else if res > MAX_RESOLUTION {
            Err(ConfigError::ResolutionTooLarge)
        } else {
            Ok(HashConfig { resolution: res, use_dct })
        }
    }

    /// Builds a configuration from the command-line form: an optional
    /// resolution and a flag that turns preprocessing off.
    pub fn from_flags(resolution: Option<u32>, no_dct: bool) -> (r: Result<HashConfig, ConfigError>)
        ensures
            r == HashConfig::chosen(resolution, !no_dct),
    {
        HashConfig::new(resolution, !no_dct)
    }
}

} // verus!
