//! What the bytes of a request decide, byte by byte.
use crate::block::{record_capacity, selection};
use crate::error::SpdmError;
use crate::message_laws::{
    is_first, law_longest_message, law_measurements_that_can_be_reported, law_selection,
    version_number,
};
use crate::request::{
    context_len, request_len, request_of, slot_provisioned, MeasurementsRequest, RequestView,
};
use crate::response::{response_to, Connection, MeasurementsResponseCtx, ResponseView, Transport};
use crate::spdm::{MeasurementInfo, Phase, SpdmVersion};
use vstd::arithmetic::power2::{lemma2_to64, pow2};
use vstd::prelude::*;

verus! {

/// Whether a slot is provisioned, by its bit: the digit of weight 2^`slot_id`.
pub open spec fn bit_is_set(provisioned_slots: u8, slot_id: u8) -> bool {
    provisioned_slots as nat / pow2(slot_id as nat) % 2 == 1
}

/// A slot can sign exactly when it is one of eight and its own bit is set.
pub proof fn law_slot_bit(provisioned_slots: u8, slot_id: u8)
    ensures
        slot_provisioned(provisioned_slots, slot_id) <==> slot_id < 8 && bit_is_set(
            provisioned_slots,
            slot_id,
        ),
{
    lemma2_to64();
    let s = provisioned_slots;
    assert(s & (1u8 << 0) != 0 <==> s / 1 % 2 == 1) by (bit_vector);
    assert(s & (1u8 << 1) != 0 <==> s / 2 % 2 == 1) by (bit_vector);
    assert(s & (1u8 << 2) != 0 <==> s / 4 % 2 == 1) by (bit_vector);
    assert(s & (1u8 << 3) != 0 <==> s / 8 % 2 == 1) by (bit_vector);
    assert(s & (1u8 << 4) != 0 <==> s / 16 % 2 == 1) by (bit_vector);
    assert(s & (1u8 << 5) != 0 <==> s / 32 % 2 == 1) by (bit_vector);
    assert(s & (1u8 << 6) != 0 <==> s / 64 % 2 == 1) by (bit_vector);
    assert(s & (1u8 << 7) != 0 <==> s / 128 % 2 == 1) by (bit_vector);
    if slot_id < 8 {
        assert(slot_id == 0 || slot_id == 1 || slot_id == 2 || slot_id == 3 || slot_id == 4
            || slot_id == 5 || slot_id == 6 || slot_id == 7);
    }
}

/// How many bytes of a request are its fields: four, 33 more for a signature,
/// and eight more from version 1.3 on.
pub open spec fn fields_len(version: SpdmVersion, signed: bool) -> int {
    4 + (if signed {
        33int
    } else {
        0
    }) + (if version == SpdmVersion::V13 || version == SpdmVersion::V14 {
        8int
    } else {
        0
    })
}

/// The length of a request is that of its fields.
pub proof fn law_request_length(version: SpdmVersion, signed: bool)
    ensures
        request_len(version, signed) == fields_len(version, signed),
        context_len(version) == (if version == SpdmVersion::V13 || version == SpdmVersion::V14 {
            8int
        } else {
            0
        }),
{
}

/// Whether a connection has got far enough.
pub open spec fn is_late_enough(phase: Phase) -> bool {
    phase != Phase::NotStarted && phase != Phase::AfterVersion && phase != Phase::AfterCapabilities
}

/// When a request is accepted: algorithms are negotiated; the version is the
/// negotiated one; no attribute bit above the three known ones is set; all
/// fields are there; and the slot that is to sign is one of eight, with its
/// bit set.
pub open spec fn is_accepted(
    phase: Phase,
    version: SpdmVersion,
    provisioned_slots: u8,
    req: Seq<u8>,
) -> bool {
    &&& is_late_enough(phase)
    &&& req.len() >= 4
    &&& req[0] == version_number(version)
    &&& req[2] < 8
    &&& req.len() >= fields_len(version, req[2] % 2 == 1)
    &&& req[2] % 2 == 1 ==> req[36] % 16 < 8 && bit_is_set(provisioned_slots, req[36] % 16)
}

/// Which requests are accepted, and how each of the others is refused.
pub proof fn law_requests_that_are_accepted(
    phase: Phase,
    version: SpdmVersion,
    provisioned_slots: u8,
    req: Seq<u8>,
)
    ensures
        ({
            let r = request_of(phase, version, provisioned_slots, req);
            &&& r is Ok <==> is_accepted(phase, version, provisioned_slots, req)
            &&& r == Err::<RequestView, SpdmError>(SpdmError::UnexpectedRequest)
                <==> !is_late_enough(phase)
            &&& r == Err::<RequestView, SpdmError>(SpdmError::VersionMismatch) <==> is_late_enough(
                phase,
            ) && req.len() >= 2 && req[0] != version_number(version)
            &&& r is Err ==> r->Err_0 == SpdmError::UnexpectedRequest || r->Err_0
                == SpdmError::VersionMismatch || r->Err_0 == SpdmError::InvalidRequest
        }),
{
    if req.len() > 36 {
        law_slot_bit(provisioned_slots, req[36] % 16);
    }
}

/// What an accepted request says, byte by byte: the operation; for a signature
/// the nonce and the slot; and the context from version 1.3 on.
pub proof fn law_fields_of_accepted_request(
    phase: Phase,
    version: SpdmVersion,
    provisioned_slots: u8,
    req: Seq<u8>,
)
    requires
        request_of(phase, version, provisioned_slots, req) is Ok,
    ensures
        ({
            let request = request_of(phase, version, provisioned_slots, req)->Ok_0;
            let signed = req[2] % 2 == 1;
            let context_at: int = if signed {
                37
            } else {
                4
            };
            &&& request.meas_op == req[3]
            &&& match request.signature {
                Some((nonce, slot_id)) => {
                    &&& signed
                    &&& nonce.len() == 32
                    &&& forall|i: int| 0 <= i < 32 ==> #[trigger] nonce[i] == req[4 + i]
                    &&& slot_id == req[36] % 16
                    &&& slot_id < 8
                    &&& bit_is_set(provisioned_slots, slot_id)
                },
                None => !signed,
            }
            &&& match request.context {
                Some(context) => {
                    &&& version == SpdmVersion::V13 || version == SpdmVersion::V14
                    &&& context.len() == 8
                    &&& forall|i: int| 0 <= i < 8 ==> #[trigger] context[i] == req[context_at + i]
                },
                None => version != SpdmVersion::V13 && version != SpdmVersion::V14,
            }
        }),
{
    if req.len() > 36 {
        law_slot_bit(provisioned_slots, req[36] % 16);
    }
}

/// Whether a slot may sign depends on its own bit alone: slots that agree on
/// the bit of the slot that a request names are all one to the request.
pub proof fn law_only_its_own_slot_matters(
    phase: Phase,
    version: SpdmVersion,
    some_slots: u8,
    other_slots: u8,
    req: Seq<u8>,
)
    requires
        req.len() > 36 ==> bit_is_set(some_slots, req[36] % 16) == bit_is_set(
            other_slots,
            req[36] % 16,
        ),
    ensures
        request_of(phase, version, some_slots, req) == request_of(
            phase,
            version,
            other_slots,
            req,
        ),
{
    if req.len() > 36 {
        law_slot_bit(some_slots, req[36] % 16);
        law_slot_bit(other_slots, req[36] % 16);
    }
}

/// Which accepted requests are answered: those on measurements that can be
/// reported, for the count, for all, or for an index that a measurement has.
/// Every other is refused, and how.
pub proof fn law_requests_that_are_answered(
    connection: Connection,
    transport: Transport,
    provisioned_slots: u8,
    info: Seq<MeasurementInfo>,
    req: Seq<u8>,
)
    ensures
        ({
            let r = response_to(connection, transport, provisioned_slots, info, req);
            let accepted = is_accepted(connection.phase, connection.version, provisioned_slots, req);
            let reportable = info.len() <= 254 && forall|i: int|
                0 <= i < info.len() ==> 1 <= (#[trigger] info[i]).index <= 254;
            let found = req[3] == 0 || req[3] == 255 || exists|i: int|
                0 <= i < info.len() && (#[trigger] info[i]).index == req[3];
            &&& r is Ok <==> accepted && reportable && found
            &&& !accepted ==> r is Err && r->Err_0 == request_of(
                connection.phase,
                connection.version,
                provisioned_slots,
                req,
            )->Err_0
            &&& accepted && !reportable ==> r == Err::<ResponseView, SpdmError>(
                SpdmError::Unspecified,
            )
            &&& accepted && reportable && !found ==> r == Err::<ResponseView, SpdmError>(
                SpdmError::InvalidRequest,
            )
        }),
{
    law_requests_that_are_accepted(connection.phase, connection.version, provisioned_slots, req);
    law_measurements_that_can_be_reported(info);
    law_selection(info, req[3]);
    if request_of(connection.phase, connection.version, provisioned_slots, req) is Ok {
        law_fields_of_accepted_request(connection.phase, connection.version, provisioned_slots, req);
        if req[3] != 0 && req[3] != 255 && selection(info, req[3]) is Some {
            let i = choose|i: int| #[trigger] is_first(info, req[3], i);
            assert(info[i].index == req[3]);
        }
    }
}

/// What is decided of the response to a request: the connection's version and
/// signature algorithm and the transport go over as they are; the number of
/// measurements is told exactly where it was asked for; and the measurements
/// are none, all in order, or the first that has the index.
pub proof fn law_what_is_decided_of_a_response(
    connection: Connection,
    transport: Transport,
    provisioned_slots: u8,
    info: Seq<MeasurementInfo>,
    req: Seq<u8>,
)
    requires
        response_to(connection, transport, provisioned_slots, info, req) is Ok,
    ensures
        ({
            let response = response_to(
                connection,
                transport,
                provisioned_slots,
                info,
                req,
            )->Ok_0;
            &&& response.version == connection.version
            &&& response.asym_algo == connection.asym_algo
            &&& response.transport == transport
            &&& request_of(connection.phase, connection.version, provisioned_slots, req) == Ok::<
                RequestView,
                SpdmError,
            >(response.request)
            &&& response.total_number_of_measurement == (if req[3] == 0 {
                info.len() as int
            } else {
                0
            })
            &&& response.entries.len() <= 254
            &&& req[3] == 0 ==> response.entries.len() == 0
            &&& req[3] == 255 ==> response.entries == info
            &&& req[3] != 0 && req[3] != 255 ==> response.entries.len() == 1 && exists|i: int|
                #[trigger] is_first(info, req[3], i) && info[i] == response.entries[0]
        }),
{
    law_requests_that_are_accepted(connection.phase, connection.version, provisioned_slots, req);
    law_measurements_that_can_be_reported(info);
    law_selection(info, req[3]);
}

/// Who asks for a signature, with which slot and nonce.
pub proof fn law_who_signs(response: ResponseView)
    ensures
        match response.request.signature {
            Some((nonce, slot_id)) => {
                &&& response.signed()
                &&& response.slot_id() == slot_id
                &&& response.requester_nonce() == Some(nonce)
            },
            None => {
                &&& !response.signed()
                &&& response.slot_id() == 0
                &&& response.requester_nonce() is None
            },
        },
{
}

/// The fields of a request that was read are what the request says.
pub proof fn law_view_of_request(request: MeasurementsRequest)
    ensures
        request@.meas_op == request.meas_op,
        match request.requester_nonce {
            Some(nonce) => request@.signature == Some((nonce@, request.slot_id)),
            None => request@.signature is None,
        },
        match request.requester_context {
            Some(context) => request@.context == Some(context@),
            None => request@.context is None,
        },
{
}

/// The fields of a planned response are what is known of it.
pub proof fn law_view_of_plan(ctx: MeasurementsResponseCtx)
    ensures
        ctx@.version == ctx.version,
        ctx@.asym_algo == ctx.asym_algo,
        ctx@.transport == ctx.transport,
        ctx@.request == ctx.request@,
        ctx@.total_number_of_measurement == ctx.total_number_of_measurement,
        ctx@.entries == ctx.entries@,
{
}

/// When the fields of a request that was read agree: a nonce comes with a
/// signature, the slot is one of eight, and 0 without a signature; a context
/// comes with the versions that carry one; and the length is that of the
/// fields.
pub proof fn law_request_in_order(request: MeasurementsRequest, version: SpdmVersion)
    ensures
        request.wf(version) <==> {
            &&& request.signature_requested <==> request.requester_nonce is Some
            &&& request.slot_id < 8
            &&& !request.signature_requested ==> request.slot_id == 0
            &&& request.requester_context is Some <==> version == SpdmVersion::V13 || version
                == SpdmVersion::V14
            &&& request.spdm_len == fields_len(version, request.signature_requested)
        },
{
    law_request_length(version, request.signature_requested);
}

/// A planned response that is in order knows its longest message.
pub proof fn law_plan_in_order(ctx: MeasurementsResponseCtx)
    requires
        ctx.wf(),
    ensures
        ctx.request.wf(ctx.version),
        ctx.entries@.len() <= 254,
        ctx.max_spdm_len == 42 + record_capacity(ctx.entries@) + (if ctx.version == SpdmVersion::V13
            || ctx.version == SpdmVersion::V14 {
            8int
        } else {
            0
        }) + (if ctx.request.signature_requested {
            96int
        } else {
            0
        }),
{
    law_longest_message(ctx@);
}

} // verus!
