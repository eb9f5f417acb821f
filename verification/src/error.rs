use vstd::prelude::*;

verus! {

/// Why a run cannot go on. Every kind is fatal: nothing is retried.
#[derive(Debug, Clone, Copy, PartialEq, Eq, Structural)]
pub enum DimmerError {
    /// No backlight device holds a file of the wanted name.
    DeviceNotFound,
    /// The search for a backlight device could not be carried out.
    GlobError,
    /// The default location of the state file cannot be had.
    ConfigDirUnavailable,
    /// A file could not be read, written or created.
    IoError,
    /// The contents of a file are not a decimal brightness.
    ParseError,
    /// The requested target is not a decimal brightness.
    InvalidBrightness,
    /// The requested percentage is above 100.
    InvalidPercentage,
    /// Duration and frame rate give no frame at all.
    InvalidConfiguration,
}

} // verus!
