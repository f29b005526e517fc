//! `MEASUREMENTS` responses: what is decided when a request is accepted, and
//! how the message is laid out.
use crate::block::{
    law_record_determines_values, lemma_first_with_index_is_there, lemma_record_capacity_bound,
    lemma_record_capacity_grows, lemma_record_len, measurement_record_shape, record_bytes,
    record_capacity, select_measurements, selection, total_measurement_count, valid_measurements,
    values_fit,
};
use crate::error::SpdmError;
use crate::request::{
    context_len, parse_request, request_len, request_of, slot_provisioned, MeasurementsRequest,
    RequestView,
};
use crate::spdm::{
    MeasurementInfo, Phase, SpdmVersion, CONTENT_NO_CHANGE, ECC_P384_SIGNATURE_SIZE, MAX_SLOTS,
    MEASUREMENTS, MEASUREMENTS_FIXED_BODY_SIZE, MEAS_OP_ALL, MEAS_OP_COUNT, MSG_HDR_SIZE,
    OPAQUE_DATA_LEN_SIZE, REQUESTER_CONTEXT_LEN, SPDM_NONCE_LEN,
};
use crate::wire::{law_le24_reads_back, le16, le24, le_value};
use vstd::prelude::*;

verus! {

/// The connection that a request came on.
#[derive(Clone, Copy, Debug, PartialEq, Eq, Structural)]
pub struct Connection {
    /// How far the connection has got.
    pub phase: Phase,
    /// The negotiated version.
    pub version: SpdmVersion,
    /// The negotiated signature algorithm.
    pub asym_algo: u32,
}

/// What the transport asks of a response.
#[derive(Clone, Copy, Debug, PartialEq, Eq, Structural)]
pub struct Transport {
    /// Bytes that the transport keeps for itself in front of a message.
    pub header_size: usize,
    /// What the length of a sent buffer must be a multiple of.
    pub send_len_alignment: usize,
    /// The longest message that goes out in one piece.
    pub data_transfer_size: usize,
}

/// What is known of a response when its request has been accepted.
pub struct ResponseView {
    pub version: SpdmVersion,
    pub asym_algo: u32,
    pub transport: Transport,
    pub request: RequestView,
    /// The number of measurements, or 0 where that was not asked for.
    pub total_number_of_measurement: u8,
    /// The measurements to report, in order.
    pub entries: Seq<MeasurementInfo>,
}

impl ResponseView {
    /// Whether the response is to be signed.
    pub open spec fn signed(self) -> bool {
        self.request.signature is Some
    }

    /// The slot that signs, or 0.
    pub open spec fn slot_id(self) -> u8 {
        match self.request.signature {
            Some((_, slot_id)) => slot_id,
            None => 0,
        }
    }

    /// The requester's nonce, which goes to the measurements of a response
    /// that is to be signed.
    pub open spec fn requester_nonce(self) -> Option<Seq<u8>> {
        match self.request.signature {
            Some((nonce, _)) => Some(nonce),
            None => None,
        }
    }

    /// The slot in the low four bits and, above it, that no change of the
    /// measurements was detected: told only where a signature was asked for.
    pub open spec fn slot_and_change(self) -> u8 {
        if self.signed() {
            (self.slot_id() + 16 * CONTENT_NO_CHANGE) as u8
        } else {
            0
        }
    }

    /// The message in front of the record.
    pub open spec fn opening(self, record_len: nat) -> Seq<u8> {
        seq![
            self.version.byte(),
            MEASUREMENTS,
            self.total_number_of_measurement,
            self.slot_and_change(),
            self.entries.len() as u8,
        ] + le24(record_len)
    }

    /// The requester's context, or nothing.
    pub open spec fn context(self) -> Seq<u8> {
        match self.request.context {
            Some(context) => context,
            None => Seq::empty(),
        }
    }

    /// The message behind the record: the nonce, no opaque data, and the
    /// requester's context.
    pub open spec fn closing(self, nonce: Seq<u8>) -> Seq<u8> {
        nonce + le16(0) + self.context()
    }

    /// The message without a signature.
    pub open spec fn unsigned_message(self, nonce: Seq<u8>, values: Seq<Seq<u8>>) -> Seq<u8> {
        let record = record_bytes(self.entries, values);
        self.opening(record.len()) + record + self.closing(nonce)
    }

    /// Length of the signature, or 0.
    pub open spec fn signature_len(self) -> nat {
        if self.signed() {
            ECC_P384_SIGNATURE_SIZE as nat
        } else {
            0
        }
    }

    /// Length of the message around a record.
    pub open spec fn frame_len(self) -> nat {
        MSG_HDR_SIZE as nat + MEASUREMENTS_FIXED_BODY_SIZE as nat + SPDM_NONCE_LEN as nat
            + OPAQUE_DATA_LEN_SIZE as nat + context_len(self.version) + self.signature_len()
    }

    /// The longest message that the reported measurements can lead to.
    pub open spec fn max_message_len(self) -> nat {
        self.frame_len() + record_capacity(self.entries)
    }

    /// Whether the parts agree with each other.
    pub open spec fn wf(self) -> bool {
        &&& self.entries.len() < 0xFF
        &&& self.slot_id() < MAX_SLOTS
        &&& self.request.signature matches Some((nonce, _)) ==> nonce.len() == SPDM_NONCE_LEN
        &&& self.request.context is Some == self.version.carries_context()
        &&& self.request.context matches Some(context) ==> context.len() == REQUESTER_CONTEXT_LEN
    }
}

/// What a request leads to, or why it is refused.
pub open spec fn response_to(
    connection: Connection,
    transport: Transport,
    provisioned_slots: u8,
    info: Seq<MeasurementInfo>,
    req: Seq<u8>,
) -> Result<ResponseView, SpdmError> {
    match request_of(connection.phase, connection.version, provisioned_slots, req) {
        Err(e) => Err(e),
        Ok(request) => if !valid_measurements(info) {
            Err(SpdmError::Unspecified)
        } else {
            match selection(info, request.meas_op) {
                None => Err(SpdmError::InvalidRequest),
                Some(entries) => Ok(
                    ResponseView {
                        version: connection.version,
                        asym_algo: connection.asym_algo,
                        transport,
                        request,
                        total_number_of_measurement: if request.meas_op == MEAS_OP_COUNT {
                            info.len() as u8
                        } else {
                            0
                        },
                        entries,
                    },
                ),
            }
        },
    }
}

/// What is known of a response when its request has been accepted.
pub struct MeasurementsResponseCtx {
    pub version: SpdmVersion,
    pub asym_algo: u32,
    pub transport: Transport,
    pub request: MeasurementsRequest,
    /// The number of measurements, or 0 where that was not asked for.
    pub total_number_of_measurement: u8,
    /// The measurements to report, in order.
    pub entries: Vec<MeasurementInfo>,
    /// The longest message that the reported measurements can lead to.
    pub max_spdm_len: usize,
}

impl View for MeasurementsResponseCtx {
    type V = ResponseView;

    open spec fn view(&self) -> ResponseView {
        ResponseView {
            version: self.version,
            asym_algo: self.asym_algo,
            transport: self.transport,
            request: self.request@,
            total_number_of_measurement: self.total_number_of_measurement,
            entries: self.entries@,
        }
    }
}

impl MeasurementsResponseCtx {
    /// Whether the parts agree with each other.
    pub open spec fn wf(&self) -> bool {
        &&& self@.wf()
        &&& self.request.wf(self.version)
        &&& self.max_spdm_len == self@.max_message_len()
    }
}

/// Reads a request and decides what the response will hold.
pub fn plan_response(
    connection: &Connection,
    transport: &Transport,
    provisioned_slots: u8,
    info: &[MeasurementInfo],
    req: &[u8],
) -> (r: Result<MeasurementsResponseCtx, SpdmError>)
    ensures
        match r {
            Ok(ctx) => {
                &&& response_to(*connection, *transport, provisioned_slots, info@, req@) == Ok::<
                    ResponseView,
                    SpdmError,
                >(ctx@)
                &&& ctx.wf()
                &&& ctx.request.spdm_len <= req@.len()
            },
            Err(e) => response_to(*connection, *transport, provisioned_slots, info@, req@) == Err::<
                ResponseView,
                SpdmError,
            >(e),
        },
{
    let request: MeasurementsRequest = parse_request(
        connection.phase,
        connection.version,
        provisioned_slots,
        req,
    )?;
    let total_count: u8 = total_measurement_count(info)?;
    let (record_len, _blocks): (usize, u8) = measurement_record_shape(info, request.meas_op)?;
    let entries: Vec<MeasurementInfo> = select_measurements(info, request.meas_op)?;
    proof {
        lemma_record_capacity_bound(entries@);
    }
    let context_size: usize = if request.requester_context.is_some() {
        REQUESTER_CONTEXT_LEN
    } else {
        0
    };
    let signature_len: usize = if request.signature_requested {
        ECC_P384_SIGNATURE_SIZE
    } else {
        0
    };
    let body_len_without_sig: usize = MEASUREMENTS_FIXED_BODY_SIZE + record_len + SPDM_NONCE_LEN
        + OPAQUE_DATA_LEN_SIZE + context_size;
    let max_spdm_len: usize = MSG_HDR_SIZE + body_len_without_sig + signature_len;
    Ok(
        MeasurementsResponseCtx {
            version: connection.version,
            asym_algo: connection.asym_algo,
            transport: *transport,
            total_number_of_measurement: if request.meas_op == 0x00 {
                total_count
            } else {
                0
            },
            request,
            entries,
            max_spdm_len,
        },
    )
}

/// What an accepted request leads to is in order, and a signature is made
/// only with a slot that is provisioned.
pub proof fn law_accepted_request_is_in_order(
    connection: Connection,
    transport: Transport,
    provisioned_slots: u8,
    info: Seq<MeasurementInfo>,
    req: Seq<u8>,
)
    requires
        response_to(connection, transport, provisioned_slots, info, req) is Ok,
    ensures
        ({
            let response = response_to(
                connection,
                transport,
                provisioned_slots,
                info,
                req,
            )->Ok_0;
            &&& response.wf()
            &&& connection.phase.is_negotiated()
            &&& req[0] == connection.version.byte()
            &&& req.len() >= request_len(connection.version, response.signed())
            &&& response.signed() ==> slot_provisioned(provisioned_slots, response.slot_id())
        }),
{
}

/// The number of measurements is reported only where it was asked for, and
/// then no measurement is; where all were asked for, all are; and where one
/// was, one with that index is.
pub proof fn law_operation_decides_what_is_reported(
    connection: Connection,
    transport: Transport,
    provisioned_slots: u8,
    info: Seq<MeasurementInfo>,
    req: Seq<u8>,
)
    requires
        response_to(connection, transport, provisioned_slots, info, req) is Ok,
    ensures
        ({
            let response = response_to(
                connection,
                transport,
                provisioned_slots,
                info,
                req,
            )->Ok_0;
            let meas_op = req[3];
            if meas_op == MEAS_OP_COUNT {
                &&& response.total_number_of_measurement == info.len()
                &&& response.entries.len() == 0
            } else {
                &&& response.total_number_of_measurement == 0
                &&& meas_op == MEAS_OP_ALL ==> response.entries == info
                &&& meas_op != MEAS_OP_ALL ==> response.entries.len() == 1
                    && response.entries[0].index == meas_op && info.contains(response.entries[0])
            }
        }),
{
    if req[3] != MEAS_OP_COUNT && req[3] != MEAS_OP_ALL {
        lemma_first_with_index_is_there(info, req[3]);
    }
}

/// A message tells how many blocks follow and how long their record is, and
/// its parts lie where the fields in front of them say.
pub proof fn law_message_describes_record(
    response: ResponseView,
    nonce: Seq<u8>,
    values: Seq<Seq<u8>>,
)
    requires
        response.wf(),
        nonce.len() == SPDM_NONCE_LEN,
        values.len() == response.entries.len(),
        values_fit(response.entries, values),
    ensures
        ({
            let message = response.unsigned_message(nonce, values);
            let record = record_bytes(response.entries, values);
            let record_end = 8 + record.len();
            &&& message[0] == response.version.byte()
            &&& message[1] == MEASUREMENTS
            &&& message[2] == response.total_number_of_measurement
            &&& message[3] % 16 == response.slot_id()
            &&& message[3] / 16 == (if response.signed() {
                CONTENT_NO_CHANGE
            } else {
                0
            })
            &&& message[4] == values.len()
            &&& le_value(message.subrange(5, 8)) == record.len()
            &&& message.subrange(8, record_end as int) == record
            &&& message.subrange(record_end as int, record_end + SPDM_NONCE_LEN) == nonce
            &&& message.skip(record_end + SPDM_NONCE_LEN + OPAQUE_DATA_LEN_SIZE)
                == response.context()
        }),
{
    let message = response.unsigned_message(nonce, values);
    let record = record_bytes(response.entries, values);
    let record_end = 8 + record.len() as int;
    lemma_record_len(response.entries, values);
    lemma_record_capacity_grows(response.entries, values.len() as int);
    lemma_record_capacity_bound(response.entries);
    law_le24_reads_back(record.len());
    assert(message.subrange(5, 8) =~= le24(record.len()));
    assert(message.subrange(8, record_end) =~= record);
    assert(message.subrange(record_end, record_end + SPDM_NONCE_LEN) =~= nonce);
    assert(message.skip(record_end + SPDM_NONCE_LEN + OPAQUE_DATA_LEN_SIZE)
        =~= response.context());
}

/// A requester that knows what a response is about can read it: two messages
/// with the same bytes carry the same nonce and the same values.
pub proof fn law_message_determines_contents(
    response: ResponseView,
    nonce_a: Seq<u8>,
    values_a: Seq<Seq<u8>>,
    nonce_b: Seq<u8>,
    values_b: Seq<Seq<u8>>,
)
    requires
        response.wf(),
        nonce_a.len() == SPDM_NONCE_LEN,
        nonce_b.len() == SPDM_NONCE_LEN,
        values_a.len() == response.entries.len(),
        values_b.len() == response.entries.len(),
        values_fit(response.entries, values_a),
        values_fit(response.entries, values_b),
        response.unsigned_message(nonce_a, values_a) == response.unsigned_message(
            nonce_b,
            values_b,
        ),
    ensures
        nonce_a == nonce_b,
        values_a == values_b,
{
    law_message_describes_record(response, nonce_a, values_a);
    law_message_describes_record(response, nonce_b, values_b);
    law_record_determines_values(response.entries, values_a, values_b);
}

} // verus!
