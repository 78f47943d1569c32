//! The generations of the format.

use std::cmp::Ordering;
use vstd::prelude::*;
use vstd::std_specs::cmp::PartialOrdSpecImpl;
use vstd::std_specs::convert::TryFromSpecImpl;

use crate::error::Error;

verus! {

/// A generation of the format. Each one keeps the fields of those before it
/// and adds its own, so the decoder branches on the order of the versions.
#[derive(Debug, Clone, Copy, PartialEq, Eq, Structural, Ord)]
pub enum Version {
    /// No header; every value is stored inline.
    Legacy,
    /// Values live in a string table and entries refer to them by index.
    Compact,
    /// Adds key hashes, reference counts and a declared entry count.
    Optimized,
    /// Laid out as [`Version::Optimized`].
    OptimizedCityHash,
}

impl View for Version {
    type V = Version;

    open spec fn view(&self) -> Version {
        *self
    }
}

impl Version {
    /// The byte that stands for this version in a header.
    pub open spec fn ordinal(self) -> u8 {
        match self {
            Version::Legacy => 0,
            Version::Compact => 1,
            Version::Optimized => 2,
            Version::OptimizedCityHash => 3,
        }
    }

    /// The byte that stands for this version in a header.
    pub fn to_byte(self) -> (byte: u8)
        ensures
            byte == self.ordinal(),
    {
        match self {
            Version::Legacy => 0,
            Version::Compact => 1,
            Version::Optimized => 2,
            Version::OptimizedCityHash => 3,
        }
    }
}

/// The version that a header byte stands for, or
/// [`Error::InvalidVersion`] with the byte where it stands for none.
pub open spec fn spec_version_from_byte(value: u8) -> Result<Version, Error> {
    if value == 0 {
        Ok(Version::Legacy)
    } else if value == 1 {
        Ok(Version::Compact)
    } else if value == 2 {
        Ok(Version::Optimized)
    } else if value == 3 {
        Ok(Version::OptimizedCityHash)
    } else {
        Err(Error::InvalidVersion(value))
    }
}

impl TryFrom<u8> for Version {
    type Error = Error;

    fn try_from(value: u8) -> (res: Result<Self, Error>) {
        match value {
            0 => Ok(Version::Legacy),
            1 => Ok(Version::Compact),
            2 => Ok(Version::Optimized),
            3 => Ok(Version::OptimizedCityHash),
            _ => Err(Error::InvalidVersion(value)),
        }
    }
}

impl TryFromSpecImpl<u8> for Version {
    open spec fn obeys_try_from_spec() -> bool {
        true
    }

    open spec fn try_from_spec(value: u8) -> Result<Self, Error> {
        spec_version_from_byte(value)
    }
}

impl PartialOrd for Version {
    fn partial_cmp(&self, other: &Self) -> (res: Option<Ordering>) {
        let a = self.to_byte();
        let b = other.to_byte();
        if a < b {
            Some(Ordering::Less)
        } else if a == b {
            Some(Ordering::Equal)
        } else {
            Some(Ordering::Greater)
        }
    }
}

impl PartialOrdSpecImpl for Version {
    open spec fn obeys_partial_cmp_spec() -> bool {
        true
    }

    open spec fn partial_cmp_spec(&self, other: &Self) -> Option<Ordering> {
        if self.ordinal() < other.ordinal() {
            Some(Ordering::Less)
        } else if self.ordinal() == other.ordinal() {
            Some(Ordering::Equal)
        } else {
            Some(Ordering::Greater)
        }
    }
}

} // verus!
