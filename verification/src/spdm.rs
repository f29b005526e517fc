//! Constants and plain types of the SPDM protocol.
use vstd::prelude::*;

verus! {

/// Length of a requester or responder nonce.
pub const SPDM_NONCE_LEN: usize = 32;

/// Length of the requester context that versions from 1.3 on carry.
pub const REQUESTER_CONTEXT_LEN: usize = 8;

/// Number of certificate slots.
pub const MAX_SLOTS: u8 = 8;

/// Length of a SHA-384 digest.
pub const SHA384_HASH_SIZE: usize = 48;

/// Length of an ECDSA P-384 signature.
pub const ECC_P384_SIGNATURE_SIZE: usize = 96;

/// Length of the version and code fields that begin every message.
pub const MSG_HDR_SIZE: usize = 2;

/// Length of the attributes and operation fields of `GET_MEASUREMENTS`.
pub const GET_MEASUREMENTS_BODY_SIZE: usize = 2;

/// Length of the nonce and slot fields of a request for a signature.
pub const SIGNATURE_REQUEST_FIELDS_SIZE: usize = SPDM_NONCE_LEN + 1;

/// Length of the fields of `MEASUREMENTS` in front of the record: total
/// count, slot and content-changed bits, number of blocks, record length.
pub const MEASUREMENTS_FIXED_BODY_SIZE: usize = 1 + 1 + 1 + 3;

/// Length of the field that tells how much opaque data follows.
pub const OPAQUE_DATA_LEN_SIZE: usize = 2;

/// Length of a measurement block in front of its value.
pub const MEAS_BLOCK_METADATA_SIZE: usize = 7;

/// Length of the DMTF fields inside a measurement, in front of its value.
pub const DMTF_VALUE_HEADER_SIZE: u16 = 3;

/// Longest value that a measurement block can carry: the block's 16-bit size
/// field counts the value and the DMTF fields in front of it.
pub const MAX_BLOCK_VALUE_SIZE: usize = 65532;

/// Longest measurement record: its length field has three bytes.
pub const SPDM_MAX_MEASUREMENT_RECORD_SIZE: u32 = 0xFF_FFFF;

/// The DMTF measurement specification bit of a measurement block.
pub const MEASUREMENT_SPECIFICATION_DMTF: u8 = 0x01;

/// Request code of `GET_MEASUREMENTS`.
pub const GET_MEASUREMENTS: u8 = 0xE0;

/// Response code of `MEASUREMENTS`.
pub const MEASUREMENTS: u8 = 0x60;

/// Operation that asks for the number of measurements.
pub const MEAS_OP_COUNT: u8 = 0x00;

/// Operation that asks for all measurements.
pub const MEAS_OP_ALL: u8 = 0xFF;

/// Content-changed value: no change was detected.
pub const CONTENT_NO_CHANGE: u8 = 2;

/// A negotiated protocol version.
#[derive(Clone, Copy, Debug, PartialEq, Eq, Structural)]
pub enum SpdmVersion {
    V10,
    V11,
    V12,
    V13,
    V14,
}

impl SpdmVersion {
    /// The byte that stands for the version in a message header.
    pub open spec fn byte(self) -> u8 {
        match self {
            SpdmVersion::V10 => 0x10,
            SpdmVersion::V11 => 0x11,
            SpdmVersion::V12 => 0x12,
            SpdmVersion::V13 => 0x13,
            SpdmVersion::V14 => 0x14,
        }
    }

    /// Whether messages carry a requester context: from version 1.3 on.
    pub open spec fn carries_context(self) -> bool {
        self.byte() >= SpdmVersion::V13.byte()
    }

    /// The byte that stands for the version in a message header.
    pub fn to_u8(self) -> (byte: u8)
        ensures
            byte == self.byte(),
    {
        match self {
            SpdmVersion::V10 => 0x10,
            SpdmVersion::V11 => 0x11,
            SpdmVersion::V12 => 0x12,
            SpdmVersion::V13 => 0x13,
            SpdmVersion::V14 => 0x14,
        }
    }
}

/// How far a connection has got.
#[derive(Clone, Copy, Debug, PartialEq, Eq, Structural)]
pub enum Phase {
    NotStarted,
    AfterVersion,
    AfterCapabilities,
    AfterAlgorithms,
    AfterDigests,
    AfterCertificate,
    Authenticated,
}

impl Phase {
    /// Whether algorithms have been negotiated.
    pub open spec fn is_negotiated(self) -> bool {
        !(self is NotStarted || self is AfterVersion || self is AfterCapabilities)
    }

    /// Whether algorithms have been negotiated.
    pub fn negotiated(self) -> (yes: bool)
        ensures
            yes == self.is_negotiated(),
    {
        match self {
            Phase::NotStarted | Phase::AfterVersion | Phase::AfterCapabilities => false,
            _ => true,
        }
    }
}

/// One measurement that the platform offers.
#[derive(Clone, Copy, Debug, PartialEq, Eq, Structural)]
pub struct MeasurementInfo {
    /// The measurement's index: 1 to 0xFE.
    pub index: u8,
    /// The longest value that the measurement may have.
    pub value_size: u16,
    /// What was measured, in the low seven bits.
    pub value_type: u8,
    /// Whether the value is a raw bit stream, not a digest.
    pub is_raw: bool,
    /// Whether the measurement belongs to the trusted computing base.
    pub is_tcb: bool,
}

} // verus!
