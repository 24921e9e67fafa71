use vstd::prelude::*;

use crate::float_text::is_float_token;

verus! {

/// Coarse quality indicator attached to a sensor reading.
#[derive(Clone, Copy, Debug, PartialEq, Eq, Structural)]
pub enum ReadConfidence {
    Unreliable,
    Low,
    Medium,
    High,
}

impl ReadConfidence {
    /// What `try_from` returns for each raw byte: exactly the bytes 0 through
    /// 3 convert, in order of increasing confidence.
    pub open spec fn spec_try_from(value: u8) -> Result<ReadConfidence, ()> {
        if value == 0 {
            Ok(ReadConfidence::Unreliable)
        } else if value == 1 {
            Ok(ReadConfidence::Low)
        } else if value == 2 {
            Ok(ReadConfidence::Medium)
        } else if value == 3 {
            Ok(ReadConfidence::High)
        } else {
            Err(())
        }
    }

    /// Fallible conversion from the raw byte carried in a log line; never an
    /// unchecked numeric cast.
    pub fn try_from(value: u8) -> (r: Result<ReadConfidence, ()>)
        ensures
            r == Self::spec_try_from(value),
    {
        match value {
            0 => Ok(ReadConfidence::Unreliable),
            1 => Ok(ReadConfidence::Low),
            2 => Ok(ReadConfidence::Medium),
            3 => Ok(ReadConfidence::High),
            _ => Err(()),
        }
    }

    /// The raw byte that encodes this confidence level.
    pub fn as_byte(&self) -> (r: u8)
        ensures
            r == self.spec_byte(),
    {
        match self {
            ReadConfidence::Unreliable => 0,
            ReadConfidence::Low => 1,
            ReadConfidence::Medium => 2,
            ReadConfidence::High => 3,
        }
    }

    /// The byte each confidence level stands for.
    pub open spec fn spec_byte(&self) -> u8 {
        match self {
            ReadConfidence::Unreliable => 0,
            ReadConfidence::Low => 1,
            ReadConfidence::Medium => 2,
            ReadConfidence::High => 3,
        }
    }
}

/// One decoded telemetry sample.
///
/// The probe reports temperature, pressure, acceleration and the GPS fix in
/// floating point; those fields carry the raw token text, validated against
/// the floating-point grammar (see [`crate::float_text`]), so a field may
/// legitimately hold a NaN token. Consumers parse the text into their own
/// floating-point values.
#[derive(Clone, Debug, PartialEq)]
pub struct SensedData {
    /// Probe-assigned sequence number; resets when the probe restarts.
    pub index: u32,
    /// Milliseconds since probe boot.
    pub uptime: u32,
    pub temperature: String,
    pub pressure: String,
    pub acceleration: [String; 3],
    pub acceleration_confidence: ReadConfidence,
    pub gps_time: u32,
    /// Latitude and longitude.
    pub gps_position: [String; 2],
    pub gps_altitude: String,
}

impl SensedData {
    /// Every floating-point field holds a valid floating-point token.
    pub open spec fn wf(&self) -> bool {
        is_float_token(self.temperature@) && is_float_token(self.pressure@) && is_float_token(
            self.acceleration[0]@,
        ) && is_float_token(self.acceleration[1]@) && is_float_token(self.acceleration[2]@)
            && is_float_token(self.gps_position[0]@) && is_float_token(self.gps_position[1]@)
            && is_float_token(self.gps_altitude@)
    }
}

/// Why a line failed to decode.
#[derive(Clone, Debug, PartialEq)]
pub enum LogReadError {
    /// The line had fewer tab-separated tokens than the schema requires.
    MissingField,
    /// The line had more tab-separated tokens than the schema allows.
    ExtraField,
    /// A token could not be parsed as its expected numeric type.
    InvalidNumber { field_text: String },
    /// A confidence byte parsed numerically but was outside the four levels.
    InvalidConfidence,
}

/// The mathematical value of a [`LogReadError`].
pub enum DecodeErrorView {
    MissingField,
    ExtraField,
    InvalidNumber(Seq<char>),
    InvalidConfidence,
}

impl View for LogReadError {
    type V = DecodeErrorView;

    open spec fn view(&self) -> DecodeErrorView {
        match self {
            LogReadError::MissingField => DecodeErrorView::MissingField,
            LogReadError::ExtraField => DecodeErrorView::ExtraField,
            LogReadError::InvalidNumber { field_text } => DecodeErrorView::InvalidNumber(
                field_text@,
            ),
            LogReadError::InvalidConfidence => DecodeErrorView::InvalidConfidence,
        }
    }
}

/// Converting a confidence level to its byte and back returns the same level,
/// and every byte that converts at all converts to the level that maps back to
/// that byte.
pub proof fn lemma_confidence_byte_round_trip(c: ReadConfidence, value: u8)
    ensures
        ReadConfidence::spec_try_from(c.spec_byte()) == Ok::<ReadConfidence, ()>(c),
        ReadConfidence::spec_try_from(value) matches Ok(d) ==> d.spec_byte() == value,
{
}

} // verus!
