//! Brightness levels and the texts they are read from and written as.
use std::cmp::Ordering;
use vstd::prelude::*;
use vstd::std_specs::cmp::PartialOrdSpecImpl;
use vstd::string::StrSliceExecFns;
use crate::decimal::{
    decimal_text,
    format_decimal,
    lemma_decimal_text_trimmed,
    lemma_decimal_text_value,
    lemma_parse_decimal_text,
    parse,
    parse_decimal,
    trim,
    trimmed,
};
use crate::error::DimmerError;
use crate::percentage::{
    lemma_percent_of_monotone,
    lemma_percent_of_within_max,
    percent_of,
    percent_of_max,
    rounds_within,
};

verus! {

/// A hardware brightness level. Levels are ordered as their numbers are.
#[derive(Debug, Clone, Copy, PartialEq, Eq, Structural)]
pub struct Brightness(pub u64);

impl View for Brightness {
    type V = nat;

    open spec fn view(&self) -> nat {
        self.0 as nat
    }
}

impl PartialOrd for Brightness {
    fn partial_cmp(&self, other: &Self) -> (order: Option<Ordering>) {
        if self.0 < other.0 {
            Some(Ordering::Less)
        } else if self.0 > other.0 {
            Some(Ordering::Greater)
        } else {
            Some(Ordering::Equal)
        }
    }
}

impl PartialOrdSpecImpl for Brightness {
    open spec fn obeys_partial_cmp_spec() -> bool {
        true
    }

    open spec fn partial_cmp_spec(&self, other: &Self) -> Option<Ordering> {
        if self.0 < other.0 {
            Some(Ordering::Less)
        } else if self.0 > other.0 {
            Some(Ordering::Greater)
        } else {
            Some(Ordering::Equal)
        }
    }
}

/// Whether `input` is written as a percentage: its last character is the
/// percent sign.
pub open spec fn is_percentage(input: Seq<char>) -> bool {
    input.len() > 0 && input.last() == '%'
}

/// What a requested target stands for under the maximum `max`.
///
/// A text that ends in a percent sign is a percentage: what stands before the
/// sign must be a numeral, else the target is no brightness, and must not
/// exceed 100. Any other text must be a numeral and is the level itself,
/// whether or not it exceeds the maximum.
pub open spec fn target_of(input: Seq<char>, max: Brightness) -> Result<Brightness, DimmerError> {
    if is_percentage(input) {
        match parse_decimal(input.drop_last()) {
            None => Err(DimmerError::InvalidBrightness),
            Some(percentage) => if percentage > 100 {
                Err(DimmerError::InvalidPercentage)
            } else {
                Ok(Brightness(percent_of(percentage as nat, max@) as u64))
            },
        }
    } else {
        match parse_decimal(input) {
            None => Err(DimmerError::InvalidBrightness),
            Some(level) => Ok(Brightness(level)),
        }
    }
}

/// What the contents of a brightness file stand for: the numeral that is
/// left when the white space around it is taken away.
pub open spec fn file_brightness(contents: Seq<char>) -> Result<Brightness, DimmerError> {
    match parse_decimal(trimmed(contents)) {
        None => Err(DimmerError::ParseError),
        Some(level) => Ok(Brightness(level)),
    }
}

/// The smaller of two levels.
pub open spec fn clamped(level: Brightness, maximum: Brightness) -> Brightness {
    if level.0 > maximum.0 {
        maximum
    } else {
        level
    }
}

/// The target of a run. A state file that is to be restored decides alone;
/// otherwise the request does. Either way the target is held to the maximum.
pub open spec fn resolved_target(
    restored: Option<Seq<char>>,
    requested: Seq<char>,
    maximum: Brightness,
) -> Result<Brightness, DimmerError> {
    let wanted = match restored {
        Some(contents) => file_brightness(contents),
        None => target_of(requested, maximum),
    };
    match wanted {
        Ok(level) => Ok(clamped(level, maximum)),
        Err(error) => Err(error),
    }
}

impl Brightness {
    /// Reads a level from a numeral.
    pub fn from_str(input: &str) -> (level: Result<Brightness, DimmerError>)
        ensures
            level == match parse_decimal(input@) {
                None => Err::<Brightness, DimmerError>(DimmerError::InvalidBrightness),
                Some(number) => Ok(Brightness(number)),
            },
    {
        match parse(input) {
            None => Err(DimmerError::InvalidBrightness),
            Some(number) => Ok(Brightness(number)),
        }
    }

    /// Reads a requested target: a level, or a percentage of `max`.
    pub fn parse_with_percentage(input: &str, max: Brightness) -> (target: Result<
        Brightness,
        DimmerError,
    >)
        ensures
            target == target_of(input@, max),
    {
        let len: usize = input.unicode_len();
        if len > 0 && input.get_char(len - 1) == '%' {
            match parse(input.substring_char(0, len - 1)) {
                None => Err(DimmerError::InvalidBrightness),
                Some(percentage) => {
                    if percentage > 100 {
                        Err(DimmerError::InvalidPercentage)
                    } else {
                        Ok(Brightness(percent_of_max(percentage, max.0)))
                    }
                },
            }
        } else {
            match parse(input) {
                None => Err(DimmerError::InvalidBrightness),
                Some(level) => Ok(Brightness(level)),
            }
        }
    }

    /// Reads a level from what a brightness file holds.
    pub fn from_file_contents(contents: &str) -> (level: Result<Brightness, DimmerError>)
        ensures
            level == file_brightness(contents@),
    {
        match parse(trim(contents)) {
            None => Err(DimmerError::ParseError),
            Some(number) => Ok(Brightness(number)),
        }
    }

    /// The numeral of the level, as it is written to a file: digits only.
    pub fn to_text(&self) -> (text: String)
        ensures
            text@ == decimal_text(self@),
    {
        format_decimal(self.0)
    }

    /// The level, held to `maximum`.
    pub fn clamp_to(self, maximum: Brightness) -> (level: Brightness)
        ensures
            level == clamped(self, maximum),
            level@ <= maximum@,
    {
        if self > maximum {
            maximum
        } else {
            self
        }
    }
}

/// Settles the target of a run from the contents of the state file, where
/// it is to be restored, and from the request.
pub fn resolve_target(restored: Option<&str>, requested: &str, maximum: Brightness) -> (target:
    Result<Brightness, DimmerError>)
    ensures
        target == resolved_target(
            match restored {
                Some(contents) => Some(contents@),
                None => None,
            },
            requested@,
            maximum,
        ),
        target matches Ok(level) ==> level@ <= maximum@,
{
    let wanted = match restored {
        Some(contents) => Brightness::from_file_contents(contents),
        None => Brightness::parse_with_percentage(requested, maximum),
    };
    match wanted {
        Ok(level) => Ok(level.clamp_to(maximum)),
        Err(error) => Err(error),
    }
}

/// A percentage written as a numeral and a percent sign is rejected where it
/// exceeds 100 and stands for that percentage of the maximum otherwise.
pub proof fn lemma_target_of_percentage(percentage: u64, max: Brightness)
    ensures
        target_of(decimal_text(percentage as nat).push('%'), max) == if percentage > 100 {
            Err::<Brightness, DimmerError>(DimmerError::InvalidPercentage)
        } else {
            Ok(Brightness(percent_of(percentage as nat, max@) as u64))
        },
{
    let numeral = decimal_text(percentage as nat);
    assert(numeral.push('%').drop_last() =~= numeral);
    lemma_parse_decimal_text(percentage);
}

/// A target whose numeric part is no numeral is rejected as no brightness.
pub proof fn lemma_target_of_non_numeral(input: Seq<char>, max: Brightness)
    requires
        parse_decimal(
            if is_percentage(input) {
                input.drop_last()
            } else {
                input
            },
        ) is None,
    ensures
        target_of(input, max) == Err::<Brightness, DimmerError>(DimmerError::InvalidBrightness),
{
}

/// Of two percentages up to 100 the larger never stands for the lower level.
pub proof fn lemma_percentage_targets_ordered(lower: u64, upper: u64, max: Brightness)
    requires
        lower <= upper <= 100,
    ensures
        target_of(decimal_text(lower as nat).push('%'), max) matches Ok(below) && target_of(
            decimal_text(upper as nat).push('%'),
            max,
        ) matches Ok(above) && below@ <= above@,
{
    lemma_target_of_percentage(lower, max);
    lemma_target_of_percentage(upper, max);
    lemma_percent_of_monotone(lower as nat, upper as nat, max@);
}

/// A percentage up to 100 stands for a level within the maximum, provided
/// that the maximum, taken as a binary64 number, is not rounded upward (as
/// no maximum up to two to the power 53 is).
pub proof fn lemma_percentage_target_within_max(percentage: u64, max: Brightness)
    requires
        percentage <= 100,
        rounds_within(max@),
    ensures
        target_of(decimal_text(percentage as nat).push('%'), max) matches Ok(level) && level@
            <= max@,
{
    lemma_target_of_percentage(percentage, max);
    lemma_percent_of_within_max(percentage as nat, max@);
}

/// What was written for a level is read back as that level, from a state
/// file as from a request.
pub proof fn lemma_written_level_reads_back(level: Brightness, max: Brightness)
    ensures
        file_brightness(decimal_text(level@)) == Ok::<Brightness, DimmerError>(level),
        target_of(decimal_text(level@), max) == Ok::<Brightness, DimmerError>(level),
{
    lemma_decimal_text_trimmed(level@);
    lemma_parse_decimal_text(level.0);
    lemma_decimal_text_value(level@);
}

} // verus!
