//! The error type of every parser in the library.
use vstd::prelude::*;
use crate::text::{chars_of, string_of, decimal, decimal_chars, concat};

verus! {

/// Why a feed, a sentence, a payload or an interchange was refused.
#[derive(Debug, Clone, PartialEq, Eq)]
pub enum HarborError {
    EmptyInput,
    InvalidUtf8,
    InvalidNmeaStart,
    MissingNmeaChecksum,
    InvalidNmeaChecksum,
    InvalidNmeaField(&'static str),
    UnsupportedSentence(String),
    InvalidAisPayload,
    UnsupportedAisType(u8),
    EdifactSyntax(&'static str),
    CsvSyntax(&'static str),
    LimitExceeded(&'static str),
}

pub type Result<T> = core::result::Result<T, HarborError>;

/// The mathematical value of a `HarborError`: the same variants, with texts
/// as character sequences.
pub enum Fault {
    EmptyInput,
    InvalidUtf8,
    InvalidNmeaStart,
    MissingNmeaChecksum,
    InvalidNmeaChecksum,
    InvalidNmeaField(Seq<char>),
    UnsupportedSentence(Seq<char>),
    InvalidAisPayload,
    UnsupportedAisType(u8),
    EdifactSyntax(Seq<char>),
    CsvSyntax(Seq<char>),
    LimitExceeded(Seq<char>),
}

impl View for HarborError {
    type V = Fault;

    open spec fn view(&self) -> Fault {
        match self {
            HarborError::EmptyInput => Fault::EmptyInput,
            HarborError::InvalidUtf8 => Fault::InvalidUtf8,
            HarborError::InvalidNmeaStart => Fault::InvalidNmeaStart,
            HarborError::MissingNmeaChecksum => Fault::MissingNmeaChecksum,
            HarborError::InvalidNmeaChecksum => Fault::InvalidNmeaChecksum,
            HarborError::InvalidNmeaField(n) => Fault::InvalidNmeaField(n@),
            HarborError::UnsupportedSentence(n) => Fault::UnsupportedSentence(n@),
            HarborError::InvalidAisPayload => Fault::InvalidAisPayload,
            HarborError::UnsupportedAisType(k) => Fault::UnsupportedAisType(*k),
            HarborError::EdifactSyntax(n) => Fault::EdifactSyntax(n@),
            HarborError::CsvSyntax(n) => Fault::CsvSyntax(n@),
            HarborError::LimitExceeded(n) => Fault::LimitExceeded(n@),
        }
    }
}

/// `r` is the outcome `spec` describes: the same value, or the same error.
pub open spec fn outcome<T: View>(r: core::result::Result<T, HarborError>, spec: core::result::Result<T::V, Fault>) -> bool {
    match spec {
        Ok(v) => r matches Ok(x) && x@ == v,
        Err(f) => r matches Err(e) && e@ == f,
    }
}

/// The text that describes a fault.
pub open spec fn fault_message(f: Fault) -> Seq<char> {
    match f {
        Fault::EmptyInput => "empty input"@,
        Fault::InvalidUtf8 => "input is not valid UTF-8"@,
        Fault::InvalidNmeaStart => "NMEA sentence must start with $ or !"@,
        Fault::MissingNmeaChecksum => "NMEA sentence is missing a checksum"@,
        Fault::InvalidNmeaChecksum => "NMEA checksum mismatch"@,
        Fault::InvalidNmeaField(n) => "invalid NMEA field "@ + n,
        Fault::UnsupportedSentence(n) => "unsupported sentence "@ + n,
        Fault::InvalidAisPayload => "invalid AIS six-bit payload"@,
        Fault::UnsupportedAisType(k) => "unsupported AIS message type "@ + decimal(k as nat),
        Fault::EdifactSyntax(n) => "EDIFACT syntax error in "@ + n,
        Fault::CsvSyntax(n) => "CSV syntax error in "@ + n,
        Fault::LimitExceeded(n) => "limit exceeded while parsing "@ + n,
    }
}

impl HarborError {
    /// The text that describes the error, as its `Display` shows it.
    pub fn message(&self) -> (s: String)
        ensures
            s@ == fault_message(self@),
    {
        match self {
            HarborError::EmptyInput => string_of(chars_of("empty input").as_slice()),
            HarborError::InvalidUtf8 => string_of(chars_of("input is not valid UTF-8").as_slice()),
            HarborError::InvalidNmeaStart => string_of(
                chars_of("NMEA sentence must start with $ or !").as_slice(),
            ),
            HarborError::MissingNmeaChecksum => string_of(
                chars_of("NMEA sentence is missing a checksum").as_slice(),
            ),
            HarborError::InvalidNmeaChecksum => string_of(chars_of("NMEA checksum mismatch").as_slice()),
            HarborError::InvalidNmeaField(n) => concat("invalid NMEA field ", n),
            HarborError::UnsupportedSentence(n) => concat("unsupported sentence ", n.as_str()),
            HarborError::InvalidAisPayload => string_of(chars_of("invalid AIS six-bit payload").as_slice()),
            HarborError::UnsupportedAisType(k) => {
                let d = string_of(decimal_chars(*k as u64).as_slice());
                concat("unsupported AIS message type ", d.as_str())
            },
            HarborError::EdifactSyntax(n) => concat("EDIFACT syntax error in ", n),
            HarborError::CsvSyntax(n) => concat("CSV syntax error in ", n),
            HarborError::LimitExceeded(n) => concat("limit exceeded while parsing ", n),
        }
    }
}

} // verus!
