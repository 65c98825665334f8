//! Clock syscall plumbing: error codes, clock sources, and their wire
//! encodings.

use vstd::prelude::*;

verus! {

/// An opaque clock identifier.
#[derive(Clone, Copy, Debug, PartialEq, Eq, Structural)]
pub struct ClockID(pub u64);

/// Possible error values when reading clock information.
#[derive(Debug, Copy, Clone, PartialEq, Eq, Structural)]
pub enum ReadClockInfoError {
    /// An unknown error occurred.
    Unknown,
    /// One of the arguments was invalid.
    InvalidArgument,
}

/// Possible error values when listing clocks.
#[derive(Debug, Copy, Clone, PartialEq, Eq, Structural)]
pub enum ReadClockListError {
    /// An unknown error occurred.
    Unknown,
    /// One of the arguments was invalid.
    InvalidArgument,
}

impl ReadClockInfoError {
    /// A short human-readable description.
    pub fn as_str(&self) -> &'static str {
        match self {
            ReadClockInfoError::Unknown => "an unknown error occurred",
            ReadClockInfoError::InvalidArgument => "invalid argument",
        }
    }
}

impl ReadClockListError {
    /// A short human-readable description.
    pub fn as_str(&self) -> &'static str {
        match self {
            ReadClockListError::Unknown => "an unknown error occurred",
            ReadClockListError::InvalidArgument => "invalid argument",
        }
    }
}

impl From<ReadClockInfoError> for u64 {
    fn from(x: ReadClockInfoError) -> (r: u64) {
        match x {
            ReadClockInfoError::Unknown => 0,
            ReadClockInfoError::InvalidArgument => 1,
        }
    }
}

impl vstd::std_specs::convert::FromSpecImpl<ReadClockInfoError> for u64 {
    open spec fn obeys_from_spec() -> bool {
        true
    }

    open spec fn from_spec(x: ReadClockInfoError) -> u64 {
        match x {
            ReadClockInfoError::Unknown => 0,
            ReadClockInfoError::InvalidArgument => 1,
        }
    }
}

impl From<u64> for ReadClockInfoError {
    fn from(x: u64) -> (r: ReadClockInfoError) {
        match x {
            1 => ReadClockInfoError::InvalidArgument,
            _ => ReadClockInfoError::Unknown,
        }
    }
}

impl vstd::std_specs::convert::FromSpecImpl<u64> for ReadClockInfoError {
    open spec fn obeys_from_spec() -> bool {
        true
    }

    open spec fn from_spec(x: u64) -> ReadClockInfoError {
        if x == 1 {
            ReadClockInfoError::InvalidArgument
        } else {
            ReadClockInfoError::Unknown
        }
    }
}

impl From<ReadClockListError> for u64 {
    fn from(e: ReadClockListError) -> (r: u64) {
        match e {
            ReadClockListError::Unknown => 0,
            ReadClockListError::InvalidArgument => 1,
        }
    }
}

impl vstd::std_specs::convert::FromSpecImpl<ReadClockListError> for u64 {
    open spec fn obeys_from_spec() -> bool {
        true
    }

    open spec fn from_spec(e: ReadClockListError) -> u64 {
        match e {
            ReadClockListError::Unknown => 0,
            ReadClockListError::InvalidArgument => 1,
        }
    }
}

impl From<u64> for ReadClockListError {
    fn from(x: u64) -> (r: ReadClockListError) {
        match x {
            1 => ReadClockListError::InvalidArgument,
            _ => ReadClockListError::Unknown,
        }
    }
}

impl vstd::std_specs::convert::FromSpecImpl<u64> for ReadClockListError {
    open spec fn obeys_from_spec() -> bool {
        true
    }

    open spec fn from_spec(x: u64) -> ReadClockListError {
        if x == 1 {
            ReadClockListError::InvalidArgument
        } else {
            ReadClockListError::Unknown
        }
    }
}

/// Flags for reading clock information.
#[derive(Clone, Copy, Debug, PartialEq, Eq, Structural)]
pub struct ReadClockFlags {
    /// The raw flag bits.
    pub bits: u32,
}

impl ReadClockFlags {
    /// No flags.
    pub fn empty() -> (r: ReadClockFlags)
        ensures
            r.bits == 0,
    {
        ReadClockFlags { bits: 0 }
    }
}

/// Flags for listing clocks.
#[derive(Clone, Copy, Debug, PartialEq, Eq, Structural)]
pub struct ReadClockListFlags {
    /// The raw flag bits.
    pub bits: u32,
}

impl ReadClockListFlags {
    /// No flags.
    pub fn empty() -> (r: ReadClockListFlags)
        ensures
            r.bits == 0,
    {
        ReadClockListFlags { bits: 0 }
    }

    /// Fill the buffer with all clocks from the clock list, for every
    /// clock kind.
    pub fn all_clocks() -> (r: ReadClockListFlags)
        ensures
            r.bits == 1,
    {
        ReadClockListFlags { bits: 1 }
    }

    /// Fill the buffer with only clocks of a given kind.
    pub fn only_kind() -> (r: ReadClockListFlags)
        ensures
            r.bits == 2,
    {
        ReadClockListFlags { bits: 2 }
    }

    /// Fill the buffer with the first clock of each kind.
    pub fn first_kind() -> (r: ReadClockListFlags)
        ensures
            r.bits == 4,
    {
        ReadClockListFlags { bits: 4 }
    }
}

/// Possible clock sources.
#[derive(Clone, Copy, Debug, PartialEq, Eq, Structural)]
pub enum ClockSource {
    /// The best monotonic clock available.
    BestMonotonic,
    /// The best real-time clock available.
    BestRealTime,
    /// A specific clock.
    ID(ClockID),
}

impl From<u64> for ClockSource {
    fn from(value: u64) -> (r: ClockSource) {
        match value {
            0 => ClockSource::BestMonotonic,
            1 => ClockSource::BestRealTime,
            _ => ClockSource::ID(ClockID(value)),
        }
    }
}

impl vstd::std_specs::convert::FromSpecImpl<u64> for ClockSource {
    open spec fn obeys_from_spec() -> bool {
        true
    }

    open spec fn from_spec(value: u64) -> ClockSource {
        if value == 0 {
            ClockSource::BestMonotonic
        } else if value == 1 {
            ClockSource::BestRealTime
        } else {
            ClockSource::ID(ClockID(value))
        }
    }
}

impl From<ClockSource> for u64 {
    fn from(source: ClockSource) -> (r: u64) {
        match source {
            ClockSource::BestMonotonic => 0,
            ClockSource::BestRealTime => 1,
            ClockSource::ID(clk) => clk.0,
        }
    }
}

impl vstd::std_specs::convert::FromSpecImpl<ClockSource> for u64 {
    open spec fn obeys_from_spec() -> bool {
        true
    }

    open spec fn from_spec(source: ClockSource) -> u64 {
        match source {
            ClockSource::BestMonotonic => 0,
            ClockSource::BestRealTime => 1,
            ClockSource::ID(clk) => clk.0,
        }
    }
}

} // verus!
