//! The errors that the library reports.

use vstd::prelude::*;

verus! {

/// A session was configured with values that no sweep can run on.
#[derive(Clone, Copy, Debug, PartialEq, Eq, Structural)]
pub enum ConfigurationError {
    /// The prefix length of the target block is above 32.
    InvalidBlock,
    /// The batch size is zero.
    InvalidBatchSize,
}

/// A line typed by the operator could not be read as what was asked for.
#[derive(Clone, Copy, Debug, PartialEq, Eq, Structural)]
pub enum InputParseError {
    /// The text is no IPv4 address in dotted decimal notation.
    InvalidAddress,
    /// The text is no port number for the start of a range.
    InvalidStartPort,
    /// The text is no port number for the end of a range.
    InvalidEndPort,
}

/// A port range written as `start-end` could not be read.
#[derive(Clone, Copy, Debug, PartialEq, Eq, Structural)]
pub enum PortRangeError {
    /// The text does not hold exactly one `-`.
    InvalidFormat,
    /// The part before the `-` is no port number.
    InvalidStartPort,
    /// The part after the `-` is no port number.
    InvalidEndPort,
}

/// The outcomes handed back are not one for each probe that was planned: the
/// results of a phase are put together only once every probe has ended.
#[derive(Clone, Copy, Debug, PartialEq, Eq, Structural)]
pub enum BarrierError {
    /// There are fewer or more outcomes than probes.
    OutcomeCountMismatch,
}

impl PortRangeError {
    /// The words of the error.
    pub open spec fn words(self) -> Seq<char> {
        match self {
            PortRangeError::InvalidFormat => "Invalid format"@,
            PortRangeError::InvalidStartPort => "Invalid start port"@,
            PortRangeError::InvalidEndPort => "Invalid end port"@,
        }
    }

    /// The words of the error.
    pub fn message(&self) -> (r: &'static str)
        ensures
            r@ == self.words(),
    {
        match self {
            PortRangeError::InvalidFormat => "Invalid format",
            PortRangeError::InvalidStartPort => "Invalid start port",
            PortRangeError::InvalidEndPort => "Invalid end port",
        }
    }
}

impl InputParseError {
    /// The words of the error.
    pub open spec fn words(self) -> Seq<char> {
        match self {
            InputParseError::InvalidAddress => "Invalid IP address"@,
            InputParseError::InvalidStartPort => "Invalid start port"@,
            InputParseError::InvalidEndPort => "Invalid end port"@,
        }
    }

    /// The words of the error.
    pub fn message(&self) -> (r: &'static str)
        ensures
            r@ == self.words(),
    {
        match self {
            InputParseError::InvalidAddress => "Invalid IP address",
            InputParseError::InvalidStartPort => "Invalid start port",
            InputParseError::InvalidEndPort => "Invalid end port",
        }
    }
}

impl ConfigurationError {
    /// The words of the error.
    pub open spec fn words(self) -> Seq<char> {
        match self {
            ConfigurationError::InvalidBlock => "Invalid CIDR"@,
            ConfigurationError::InvalidBatchSize => "Invalid batch size"@,
        }
    }

    /// The words of the error.
    pub fn message(&self) -> (r: &'static str)
        ensures
            r@ == self.words(),
    {
        match self {
            ConfigurationError::InvalidBlock => "Invalid CIDR",
            ConfigurationError::InvalidBatchSize => "Invalid batch size",
        }
    }
}

} // verus!
