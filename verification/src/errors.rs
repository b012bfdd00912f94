//! Error taxonomy of the scanning core: registry misses and the parse
//! failures of the date/time normalizer and the extractor.
use vstd::prelude::*;

verus! {

/// Failure of the category registry lookup.
#[derive(Clone, Copy, PartialEq, Eq, Structural, Debug)]
pub enum ConfigError {
    CategoryNotFound,
}

/// Failures of extraction and of date/time normalization.
#[derive(Clone, Copy, PartialEq, Eq, Structural, Debug)]
pub enum ParseError {
    /// The listing container node is absent from the markup.
    MissingContainer,
    /// The date text does not have the comma/token shape.
    InvalidDateFormat,
    /// The day token is not a number.
    InvalidDay,
    /// The month token is not a known month name.
    InvalidMonth,
    /// The year token is not a number.
    InvalidYear,
    /// The (year, month, day) combination is not a valid calendar date.
    InvalidDate,
    /// The time text is not a valid 24-hour `HH:MM` value.
    InvalidTimeFormat,
}

impl ParseError {
    /// A short descriptive name, usable where a message is printed.
    pub fn describe(&self) -> (r: &'static str)
        ensures
            self is MissingContainer ==> r@ == "missing listing container"@,
            self is InvalidDateFormat ==> r@ == "invalid date format"@,
            self is InvalidDay ==> r@ == "invalid day"@,
            self is InvalidMonth ==> r@ == "invalid month"@,
            self is InvalidYear ==> r@ == "invalid year"@,
            self is InvalidDate ==> r@ == "invalid date"@,
            self is InvalidTimeFormat ==> r@ == "invalid time format"@,
    {
        match self {
            ParseError::MissingContainer => "missing listing container",
            ParseError::InvalidDateFormat => "invalid date format",
            ParseError::InvalidDay => "invalid day",
            ParseError::InvalidMonth => "invalid month",
            ParseError::InvalidYear => "invalid year",
            ParseError::InvalidDate => "invalid date",
            ParseError::InvalidTimeFormat => "invalid time format",
        }
    }
}

} // verus!
