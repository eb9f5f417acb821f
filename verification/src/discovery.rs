//! Where the files of a backlight device are looked for, and what the
//! outcome of the search means.
use vstd::prelude::*;
use vstd::string::StringExecFns;
use crate::error::DimmerError;

verus! {

/// The directory that holds one subdirectory for each backlight device.
pub const BACKLIGHT_ROOT: &'static str = "/sys/class/backlight";

/// The name under which the state file is kept apart from the files of other
/// programs in the user's configuration directory.
pub const STATE_PREFIX: &'static str = "dimmer";

/// The name of the state file where none is given.
pub const STATE_FILE_NAME: &'static str = "stored_brightness";

/// The files of a backlight device that a ramp works with.
#[derive(Debug, Clone, Copy, PartialEq, Eq, Structural)]
pub enum DeviceFile {
    /// The file that new levels are written to.
    SetBrightness,
    /// The file that the current level is read from.
    GetBrightness,
    /// The file that the highest level is read from.
    MaxBrightness,
}

impl DeviceFile {
    /// The name that the file has in the directory of its device.
    pub open spec fn name(&self) -> Seq<char> {
        match self {
            DeviceFile::SetBrightness => "brightness"@,
            DeviceFile::GetBrightness => "actual_brightness"@,
            DeviceFile::MaxBrightness => "max_brightness"@,
        }
    }

    /// The name that the file has in the directory of its device.
    pub fn file_name(&self) -> (name: &'static str)
        ensures
            name@ == self.name(),
    {
        match self {
            DeviceFile::SetBrightness => "brightness",
            DeviceFile::GetBrightness => "actual_brightness",
            DeviceFile::MaxBrightness => "max_brightness",
        }
    }
}

/// The pattern that matches the file `filename` of any backlight device: the
/// root, any one subdirectory, the name.
pub open spec fn pattern_of(filename: Seq<char>) -> Seq<char> {
    BACKLIGHT_ROOT@ + "/*/"@ + filename
}

/// The pattern to search with for the file `filename` of a backlight device.
pub fn device_pattern(filename: &str) -> (pattern: String)
    ensures
        pattern@ == pattern_of(filename@),
{
    let mut pattern = String::from_str(BACKLIGHT_ROOT);
    pattern.append("/*/");
    pattern.append(filename);
    pattern
}

/// How the search for a device file went, as far as its first match.
#[derive(Debug, PartialEq, Eq)]
pub enum Search<P> {
    /// The pattern was not accepted, so nothing was searched.
    PatternRejected,
    /// The search ran and matched nothing.
    NoMatch,
    /// A directory on the way could not be read.
    Unreadable,
    /// The first match.
    Found(P),
}

/// What the search comes to: the first match, or why there is none.
pub open spec fn outcome_of<P>(search: Search<P>) -> Result<P, DimmerError> {
    match search {
        Search::Found(path) => Ok(path),
        Search::NoMatch => Err(DimmerError::DeviceNotFound),
        Search::PatternRejected => Err(DimmerError::GlobError),
        Search::Unreadable => Err(DimmerError::GlobError),
    }
}

/// Settles on the first match of a search. A search that matched nothing
/// found no device; one that could not be carried out failed as a search.
pub fn first_match<P>(search: Search<P>) -> (found: Result<P, DimmerError>)
    ensures
        found == outcome_of(search),
{
    match search {
        Search::Found(path) => Ok(path),
        Search::NoMatch => Err(DimmerError::DeviceNotFound),
        Search::PatternRejected => Err(DimmerError::GlobError),
        Search::Unreadable => Err(DimmerError::GlobError),
    }
}

} // verus!
