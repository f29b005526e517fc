//! `GET_MEASUREMENTS` requests.
use crate::error::SpdmError;
use crate::spdm::{
    Phase, SpdmVersion, GET_MEASUREMENTS, GET_MEASUREMENTS_BODY_SIZE, MAX_SLOTS, MSG_HDR_SIZE,
    REQUESTER_CONTEXT_LEN, SIGNATURE_REQUEST_FIELDS_SIZE, SPDM_NONCE_LEN,
};
use crate::wire::ref_pair_from_prefix;
use vstd::prelude::*;

verus! {

/// What a request says.
pub struct RequestView {
    /// Which measurements it asks for.
    pub meas_op: u8,
    /// The requester's nonce and the slot to sign with, when it asks for a
    /// signature.
    pub signature: Option<(Seq<u8>, u8)>,
    /// The requester's context, in versions that carry one.
    pub context: Option<Seq<u8>>,
}

/// Whether a request with these attributes asks for a signature: bit 0.
pub open spec fn asks_for_signature(attributes: u8) -> bool {
    attributes % 2 == 1
}

/// Length of the requester context in messages of a version.
pub open spec fn context_len(version: SpdmVersion) -> nat {
    if version.carries_context() {
        REQUESTER_CONTEXT_LEN as nat
    } else {
        0
    }
}

/// Length of the nonce and slot fields of a request.
pub open spec fn signature_fields_len(signed: bool) -> nat {
    if signed {
        SIGNATURE_REQUEST_FIELDS_SIZE as nat
    } else {
        0
    }
}

/// Length of a request.
pub open spec fn request_len(version: SpdmVersion, signed: bool) -> nat {
    MSG_HDR_SIZE as nat + GET_MEASUREMENTS_BODY_SIZE as nat + signature_fields_len(signed)
        + context_len(version)
}

/// Whether a slot exists and a certificate is provisioned in it.
pub open spec fn slot_provisioned(provisioned_slots: u8, slot_id: u8) -> bool {
    slot_id < MAX_SLOTS && provisioned_slots & (1u8 << slot_id) != 0
}

/// What the bytes of a request say, or why it is refused. Bytes after the
/// request are ignored.
pub open spec fn request_of(
    phase: Phase,
    version: SpdmVersion,
    provisioned_slots: u8,
    req: Seq<u8>,
) -> Result<RequestView, SpdmError> {
    let signed = asks_for_signature(req[2]);
    let slot_id = req[36] % 16;
    let context_at = request_len(version, signed) - context_len(version);
    if !phase.is_negotiated() {
        Err(SpdmError::UnexpectedRequest)
    } else if req.len() < MSG_HDR_SIZE {
        Err(SpdmError::InvalidRequest)
    } else if req[0] != version.byte() {
        Err(SpdmError::VersionMismatch)
    } else if req.len() < MSG_HDR_SIZE + GET_MEASUREMENTS_BODY_SIZE || req[2] > 7 || req.len()
        < request_len(version, signed) {
        Err(SpdmError::InvalidRequest)
    } else if signed && !slot_provisioned(provisioned_slots, slot_id) {
        Err(SpdmError::InvalidRequest)
    } else {
        Ok(
            RequestView {
                meas_op: req[3],
                signature: if signed {
                    Some((req.subrange(4, 36), slot_id))
                } else {
                    None
                },
                context: if version.carries_context() {
                    Some(req.subrange(context_at, context_at + REQUESTER_CONTEXT_LEN))
                } else {
                    None
                },
            },
        )
    }
}

/// A request that was accepted.
pub struct MeasurementsRequest {
    /// Which measurements it asks for.
    pub meas_op: u8,
    /// Whether it asks for a signature.
    pub signature_requested: bool,
    /// The slot to sign with; 0 when no signature is asked for.
    pub slot_id: u8,
    /// The requester's nonce, when a signature is asked for.
    pub requester_nonce: Option<[u8; 32]>,
    /// The requester's context, in versions that carry one.
    pub requester_context: Option<[u8; 8]>,
    /// The length of the request, without bytes after it.
    pub spdm_len: usize,
}

impl View for MeasurementsRequest {
    type V = RequestView;

    open spec fn view(&self) -> RequestView {
        RequestView {
            meas_op: self.meas_op,
            signature: match self.requester_nonce {
                Some(nonce) => Some((nonce@, self.slot_id)),
                None => None,
            },
            context: match self.requester_context {
                Some(context) => Some(context@),
                None => None,
            },
        }
    }
}

impl MeasurementsRequest {
    /// Whether the fields agree with each other and with the version.
    pub open spec fn wf(&self, version: SpdmVersion) -> bool {
        &&& self.signature_requested == self.requester_nonce is Some
        &&& !self.signature_requested ==> self.slot_id == 0
        &&& self.slot_id < MAX_SLOTS
        &&& self.requester_context is Some == version.carries_context()
        &&& self.spdm_len == request_len(version, self.signature_requested)
    }
}

fn nonce_at(bytes: &[u8], at: usize) -> (nonce: [u8; 32])
    requires
        at + SPDM_NONCE_LEN <= bytes@.len(),
    ensures
        nonce@ == bytes@.subrange(at as int, at + SPDM_NONCE_LEN),
{
    let mut nonce: [u8; 32] = [0u8;32];
    let len: usize = bytes.len();
    let mut i: usize = 0;
    while i < SPDM_NONCE_LEN
        invariant
            i <= SPDM_NONCE_LEN,
            at + SPDM_NONCE_LEN <= len == bytes@.len(),
            forall|j: int| 0 <= j < i ==> nonce@[j] == bytes@[at + j],
        decreases SPDM_NONCE_LEN - i,
    {
        nonce[i] = bytes[at + i];
        i += 1;
    }
    assert(nonce@ =~= bytes@.subrange(at as int, at + SPDM_NONCE_LEN));
    nonce
}

fn context_at(bytes: &[u8], at: usize) -> (context: [u8; 8])
    requires
        at + REQUESTER_CONTEXT_LEN <= bytes@.len(),
    ensures
        context@ == bytes@.subrange(at as int, at + REQUESTER_CONTEXT_LEN),
{
    let mut context: [u8; 8] = [0u8;8];
    let len: usize = bytes.len();
    let mut i: usize = 0;
    while i < REQUESTER_CONTEXT_LEN
        invariant
            i <= REQUESTER_CONTEXT_LEN,
            at + REQUESTER_CONTEXT_LEN <= len == bytes@.len(),
            forall|j: int| 0 <= j < i ==> context@[j] == bytes@[at + j],
        decreases REQUESTER_CONTEXT_LEN - i,
    {
        context[i] = bytes[at + i];
        i += 1;
    }
    assert(context@ =~= bytes@.subrange(at as int, at + REQUESTER_CONTEXT_LEN));
    context
}

/// Reads a request. Caliptra signs only through provisioned certificate
/// slots; slot 0xF, which stands for a public key alone, is refused.
pub fn parse_request(
    phase: Phase,
    version: SpdmVersion,
    provisioned_slots: u8,
    req: &[u8],
) -> (r: Result<MeasurementsRequest, SpdmError>)
    ensures
        match r {
            Ok(request) => {
                &&& request_of(phase, version, provisioned_slots, req@) == Ok::<
                    RequestView,
                    SpdmError,
                >(request@)
                &&& request.wf(version)
                &&& request.spdm_len <= req@.len()
                &&& request.signature_requested ==> slot_provisioned(
                    provisioned_slots,
                    request.slot_id,
                )
            },
            Err(e) => request_of(phase, version, provisioned_slots, req@) == Err::<
                RequestView,
                SpdmError,
            >(e),
        },
{
    if !phase.negotiated() {
        return Err(SpdmError::UnexpectedRequest);
    }
    let (header, rest): (&[u8; 2], &[u8]) = match ref_pair_from_prefix(req) {
        Some(split) => split,
        None => return Err(SpdmError::InvalidRequest),
    };
    assert(header@[0] == req@[0]);
    if header[0] != version.to_u8() {
        return Err(SpdmError::VersionMismatch);
    }
    let (body, after): (&[u8; 2], &[u8]) = match ref_pair_from_prefix(rest) {
        Some(split) => split,
        None => return Err(SpdmError::InvalidRequest),
    };
    assert(body@[0] == req@[2] && body@[1] == req@[3]);
    assert(after@ =~= req@.subrange(4, req@.len() as int));
    let attributes: u8 = body[0];
    let meas_op: u8 = body[1];
    assert(attributes & !0x07u8 != 0 <==> attributes > 7) by (bit_vector);
    assert(attributes & 0x01u8 != 0 <==> attributes % 2 == 1) by (bit_vector);
    if attributes & !0x07u8 != 0 {
        return Err(SpdmError::InvalidRequest);
    }
    let signature_requested: bool = attributes & 0x01 != 0;
    let context_size: usize = if version.to_u8() >= 0x13 {
        REQUESTER_CONTEXT_LEN
    } else {
        0
    };
    let mut requester_nonce: Option<[u8; 32]> = None;
    let mut slot_id: u8 = 0;
    let mut used: usize = 0;
    if signature_requested {
        if after.len() < SIGNATURE_REQUEST_FIELDS_SIZE {
            return Err(SpdmError::InvalidRequest);
        }
        let nonce: [u8; 32] = nonce_at(after, 0);
        assert(nonce@ =~= req@.subrange(4, 36));
        requester_nonce = Some(nonce);
        let slot_byte: u8 = after[SPDM_NONCE_LEN];
        assert(slot_byte & 0x0Fu8 == slot_byte % 16) by (bit_vector);
        slot_id = slot_byte & 0x0F;
        if slot_id >= MAX_SLOTS || provisioned_slots & (1u8 << slot_id) == 0 {
            return Err(SpdmError::InvalidRequest);
        }
        used = SIGNATURE_REQUEST_FIELDS_SIZE;
    }
    let mut requester_context: Option<[u8; 8]> = None;
    if context_size != 0 {
        if after.len() - used < REQUESTER_CONTEXT_LEN {
            return Err(SpdmError::InvalidRequest);
        }
        let context: [u8; 8] = context_at(after, used);
        assert(context@ =~= req@.subrange(4 + used, 4 + used + REQUESTER_CONTEXT_LEN));
        requester_context = Some(context);
    }
    Ok(
        MeasurementsRequest {
            meas_op,
            signature_requested,
            slot_id,
            requester_nonce,
            requester_context,
            spdm_len: MSG_HDR_SIZE + GET_MEASUREMENTS_BODY_SIZE + used + context_size,
        },
    )
}

/// The bytes of a request that asks for a signature with `slot_id`, or for
/// none. `flags` holds the two attribute bits above the signature bit.
pub open spec fn request_bytes(version: SpdmVersion, flags: u8, request: RequestView) -> Seq<u8> {
    let signature_bit: int = if request.signature is Some {
        1
    } else {
        0
    };
    let signature_fields = match request.signature {
        Some((nonce, slot_id)) => nonce + seq![slot_id],
        None => Seq::empty(),
    };
    let context = match request.context {
        Some(context) => context,
        None => Seq::empty(),
    };
    seq![version.byte(), GET_MEASUREMENTS, (2 * flags + signature_bit) as u8, request.meas_op]
        + signature_fields + context
}

/// A well-formed request for a provisioned slot, or for no signature, is
/// accepted and read as it was meant, whatever follows it.
pub proof fn law_request_reads_back(
    phase: Phase,
    version: SpdmVersion,
    provisioned_slots: u8,
    flags: u8,
    request: RequestView,
    trailing: Seq<u8>,
)
    requires
        phase.is_negotiated(),
        flags < 4,
        request.signature matches Some((nonce, slot_id)) ==> {
            &&& nonce.len() == SPDM_NONCE_LEN
            &&& slot_provisioned(provisioned_slots, slot_id)
        },
        request.context is Some == version.carries_context(),
        request.context matches Some(context) ==> context.len() == REQUESTER_CONTEXT_LEN,
    ensures
        request_of(
            phase,
            version,
            provisioned_slots,
            request_bytes(version, flags, request) + trailing,
        ) == Ok::<RequestView, SpdmError>(request),
{
    let req = request_bytes(version, flags, request) + trailing;
    let signed = request.signature is Some;
    assert(req[2] == 2 * flags + (if signed {
        1int
    } else {
        0int
    }));
    assert(asks_for_signature(req[2]) == signed);
    let context_at = request_len(version, signed) - context_len(version);
    if let Some((nonce, slot_id)) = request.signature {
        assert(req.subrange(4, 36) =~= nonce);
        assert(req[36] == slot_id);
    }
    if let Some(context) = request.context {
        assert(req.subrange(context_at, context_at + REQUESTER_CONTEXT_LEN) =~= context);
    }
}

/// Bytes after an accepted request do not change what it says.
pub proof fn law_trailing_bytes_are_ignored(
    phase: Phase,
    version: SpdmVersion,
    provisioned_slots: u8,
    req: Seq<u8>,
    trailing: Seq<u8>,
)
    requires
        request_of(phase, version, provisioned_slots, req) is Ok,
    ensures
        request_of(phase, version, provisioned_slots, req + trailing) == request_of(
            phase,
            version,
            provisioned_slots,
            req,
        ),
{
    let all = req + trailing;
    let signed = asks_for_signature(req[2]);
    let context_at = request_len(version, signed) - context_len(version);
    assert(all[2] == req[2]);
    if signed {
        assert(all.subrange(4, 36) =~= req.subrange(4, 36));
        assert(all[36] == req[36]);
    }
    if version.carries_context() {
        assert(all.subrange(context_at, context_at + REQUESTER_CONTEXT_LEN) =~= req.subrange(
            context_at,
            context_at + REQUESTER_CONTEXT_LEN,
        ));
    }
}

/// Which slots are provisioned is looked at last, and only for a signature: a
/// request that is refused with every slot provisioned is refused alike
/// whatever slots are, and a request for no signature says the same.
pub proof fn law_slots_are_looked_at_last(
    phase: Phase,
    version: SpdmVersion,
    provisioned_slots: u8,
    req: Seq<u8>,
)
    ensures
        ({
            let all = request_of(phase, version, 0xFF, req);
            let some = request_of(phase, version, provisioned_slots, req);
            &&& all is Err ==> some == all
            &&& all is Ok && all->Ok_0.signature is None ==> some == all
        }),
{
    let slot_id = req[36] % 16;
    assert(slot_id < 8 ==> 0xFFu8 & (1u8 << slot_id) != 0) by (bit_vector);
}

} // verus!
