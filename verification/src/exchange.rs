//! The `GET_MEASUREMENTS` exchange as a state machine. The machine decides;
//! the platform does the work that a decision asks for (transcripts, nonces,
//! buffers, measurement values, digests, signatures, sending) and replies.
use crate::block::{
    accepted_len, block_bytes, block_capacity, block_value_range, lemma_record_capacity_bound,
    lemma_record_capacity_grows, lemma_record_len, record_bytes, record_capacity, reported_len,
    values_fit, write_measurement_record_block_into_slice,
};
use crate::buffer::{
    align_send_len, cleared, law_round_up_is_tight_multiple, lemma_splice_edits,
    lemma_splice_extends, lemma_splices_commute, round_up, shift_left, shifted, splice, write_into_slice, zero_slice, zeros,
};
use crate::error::SpdmError;
use crate::request::request_len;
use crate::response::{
    plan_response, response_to, Connection, MeasurementsResponseCtx, ResponseView, Transport,
};
use crate::signing::{signing_context, signing_context_bytes};
use crate::spdm::{
    MeasurementInfo, ECC_P384_SIGNATURE_SIZE, MEASUREMENTS, MEASUREMENTS_FIXED_BODY_SIZE,
    MEAS_BLOCK_METADATA_SIZE, MSG_HDR_SIZE, SHA384_HASH_SIZE, SPDM_NONCE_LEN,
};
use crate::wire::{le16, u24_le};
use vstd::prelude::*;

verus! {

/// What the machine waits for.
#[derive(Clone, Copy, Debug, PartialEq, Eq, Structural)]
pub enum Stage {
    /// That the request is in the transcript.
    AppendRequest,
    /// The responder's nonce.
    Nonce,
    /// A buffer for the response.
    Allocate,
    /// The value of the next measurement.
    Value,
    /// That a response too long for one piece can be sent in chunks.
    CheckLarge,
    /// That the response is in the transcript.
    AppendResponse,
    /// The digest of the transcript.
    FinalizeTranscript,
    /// That the digest to be signed was begun.
    HashInit,
    /// That the digest to be signed went on.
    HashUpdate,
    /// The digest to be signed.
    HashFinish,
    /// The signature.
    Sign,
    /// That the response went to the transport.
    Deliver,
    /// That sending in chunks has begun.
    StartLarge,
    /// Nothing: the exchange is over.
    Ended,
}

impl Stage {
    /// Whether the machine holds the response buffer.
    pub open spec fn holds_buffer(self) -> bool {
        self is Value || self is CheckLarge || self is AppendResponse || self is FinalizeTranscript
            || self is HashInit || self is HashUpdate || self is HashFinish || self is Sign
    }

    /// Whether the platform's own error code is passed on.
    pub open spec fn passes_error_on(self) -> bool {
        self is AppendRequest || self is Allocate || self is CheckLarge || self is AppendResponse
            || self is FinalizeTranscript || self is StartLarge
    }

    fn holds(self) -> (yes: bool)
        ensures
            yes == self.holds_buffer(),
    {
        match self {
            Stage::Value
            | Stage::CheckLarge
            | Stage::AppendResponse
            | Stage::FinalizeTranscript
            | Stage::HashInit
            | Stage::HashUpdate
            | Stage::HashFinish
            | Stage::Sign => true,
            _ => false,
        }
    }

    fn passes_on(self) -> (yes: bool)
        ensures
            yes == self.passes_error_on(),
    {
        match self {
            Stage::AppendRequest
            | Stage::Allocate
            | Stage::CheckLarge
            | Stage::AppendResponse
            | Stage::FinalizeTranscript
            | Stage::StartLarge => true,
            _ => false,
        }
    }
}

/// What the platform replies when it has done what it was asked to do.
pub enum Reply {
    /// The work is done, and there is nothing to tell.
    Done,
    /// A fresh nonce.
    Nonce([u8; 32]),
    /// A buffer for the response.
    Buffer(Vec<u8>),
    /// What the measurement left in a buffer of the asked size, and the
    /// length that it reported, or nothing where it failed.
    Value(Vec<u8>, Option<usize>),
    /// A digest.
    Digest([u8; 48]),
    /// What the signer left in a buffer of a signature's size, and the length
    /// that it reported.
    Signature([u8; 96], usize),
    /// Sending in chunks has begun with a message of this length.
    Started(usize),
    /// The work failed, with the platform's own error code.
    Failed(u32),
}

/// What a [`Reply`] says.
pub enum ReplyView {
    Done,
    Nonce(Seq<u8>),
    Buffer(Seq<u8>),
    Value(Seq<u8>, Option<nat>),
    Digest(Seq<u8>),
    Signature(Seq<u8>, nat),
    Started(nat),
    Failed(u32),
}

impl View for Reply {
    type V = ReplyView;

    open spec fn view(&self) -> ReplyView {
        match *self {
            Reply::Done => ReplyView::Done,
            Reply::Nonce(nonce) => ReplyView::Nonce(nonce@),
            Reply::Buffer(buf) => ReplyView::Buffer(buf@),
            Reply::Value(value, reported) => ReplyView::Value(value@, reported_len(reported)),
            Reply::Digest(digest) => ReplyView::Digest(digest@),
            Reply::Signature(signature, len) => ReplyView::Signature(signature@, len as nat),
            Reply::Started(len) => ReplyView::Started(len as nat),
            Reply::Failed(code) => ReplyView::Failed(code),
        }
    }
}

/// What the machine asks the platform to do.
pub enum Action {
    /// Append the bytes to the transcript of this exchange.
    AppendTranscript(Vec<u8>),
    /// Make a fresh nonce.
    GenerateNonce,
    /// Allocate a buffer of at least this many bytes.
    Allocate(usize),
    /// Read the measurement with this index, of at most this many bytes.
    ReadValue { index: u8, nonce: Option<[u8; 32]>, size: u16 },
    /// Tell whether a message of this length, in a buffer of this capacity,
    /// can be sent in chunks.
    ValidateLarge { spdm_len: usize, capacity: usize },
    /// Take the digest of the transcript, and end it.
    FinalizeTranscript,
    /// Begin a digest with this signing context.
    HashInit([u8; 100]),
    /// Go on with the digest of this transcript digest.
    HashUpdate([u8; 48]),
    /// Give the digest.
    HashFinish,
    /// Sign the digest with the key of the slot.
    Sign { slot_id: u8, asym_algo: u32, digest: [u8; 48] },
    /// Send the first `len` bytes of the buffer.
    Deliver { buf: Vec<u8>, len: usize, spdm_len: usize },
    /// Keep the buffer, and begin to send its first bytes in chunks.
    StartLarge { buf: Vec<u8>, spdm_len: usize },
    /// Nothing: the exchange is over, and a message of this length went out.
    Finished { spdm_len: usize },
    /// Report the error. A buffer that the machine held comes back cleared;
    /// `reset_large` tells to forget the message that was to go in chunks.
    Failed { error: SpdmError, reset_large: bool, cleared: Option<Vec<u8>> },
}

/// What an [`Action`] says.
pub enum ActionView {
    AppendTranscript(Seq<u8>),
    GenerateNonce,
    Allocate(nat),
    ReadValue { index: u8, nonce: Option<Seq<u8>>, size: u16 },
    ValidateLarge { spdm_len: nat, capacity: nat },
    FinalizeTranscript,
    HashInit(Seq<u8>),
    HashUpdate(Seq<u8>),
    HashFinish,
    Sign { slot_id: u8, asym_algo: u32, digest: Seq<u8> },
    Deliver { buf: Seq<u8>, len: nat, spdm_len: nat },
    StartLarge { buf: Seq<u8>, spdm_len: nat },
    Finished { spdm_len: nat },
    Failed { error: SpdmError, reset_large: bool, cleared: Option<Seq<u8>> },
}

impl View for Action {
    type V = ActionView;

    open spec fn view(&self) -> ActionView {
        match *self {
            Action::AppendTranscript(bytes) => ActionView::AppendTranscript(bytes@),
            Action::GenerateNonce => ActionView::GenerateNonce,
            Action::Allocate(len) => ActionView::Allocate(len as nat),
            Action::ReadValue { index, nonce, size } => ActionView::ReadValue {
                index,
                nonce: match nonce {
                    Some(bytes) => Some(bytes@),
                    None => None,
                },
                size,
            },
            Action::ValidateLarge { spdm_len, capacity } => ActionView::ValidateLarge {
                spdm_len: spdm_len as nat,
                capacity: capacity as nat,
            },
            Action::FinalizeTranscript => ActionView::FinalizeTranscript,
            Action::HashInit(context) => ActionView::HashInit(context@),
            Action::HashUpdate(transcript) => ActionView::HashUpdate(transcript@),
            Action::HashFinish => ActionView::HashFinish,
            Action::Sign { slot_id, asym_algo, digest } => ActionView::Sign {
                slot_id,
                asym_algo,
                digest: digest@,
            },
            Action::Deliver { buf, len, spdm_len } => ActionView::Deliver {
                buf: buf@,
                len: len as nat,
                spdm_len: spdm_len as nat,
            },
            Action::StartLarge { buf, spdm_len } => ActionView::StartLarge {
                buf: buf@,
                spdm_len: spdm_len as nat,
            },
            Action::Finished { spdm_len } => ActionView::Finished { spdm_len: spdm_len as nat },
            Action::Failed { error, reset_large, cleared } => ActionView::Failed {
                error,
                reset_large,
                cleared: match cleared {
                    Some(buf) => Some(buf@),
                    None => None,
                },
            },
        }
    }
}

/// What an exchange has come to.
pub struct ExchangeView {
    /// What was decided when the request was accepted.
    pub response: ResponseView,
    /// What the machine waits for.
    pub stage: Stage,
    /// The responder's nonce.
    pub nonce: Seq<u8>,
    /// The response buffer as it was allocated.
    pub allocated: Seq<u8>,
    /// The response buffer under the message: as it was allocated, with what
    /// the measurements left in it.
    pub backing: Seq<u8>,
    /// The values that were read, in the order of the measurements.
    pub values: Seq<Seq<u8>>,
    /// The digest of the transcript.
    pub transcript: Seq<u8>,
    /// The signature.
    pub signature: Seq<u8>,
}

impl ExchangeView {
    /// The machine when a request has been accepted, and what it asks first:
    /// a request for a signature goes into the transcript.
    pub open spec fn start(response: ResponseView, req: Seq<u8>) -> (ExchangeView, ActionView) {
        let begun = ExchangeView {
            response,
            stage: Stage::Nonce,
            nonce: zeros(SPDM_NONCE_LEN as nat),
            allocated: Seq::empty(),
            backing: Seq::empty(),
            values: Seq::empty(),
            transcript: zeros(SHA384_HASH_SIZE as nat),
            signature: Seq::empty(),
        };
        if response.signed() {
            (
                ExchangeView { stage: Stage::AppendRequest, ..begun },
                ActionView::AppendTranscript(
                    req.take(request_len(response.version, true) as int),
                ),
            )
        } else {
            (begun, ActionView::GenerateNonce)
        }
    }

    /// Bytes in front of the message.
    pub open spec fn head(self) -> nat {
        self.response.transport.header_size as nat
    }

    /// The record of the values that were read.
    pub open spec fn record(self) -> Seq<u8> {
        record_bytes(self.response.entries, self.values)
    }

    /// The message without a signature.
    pub open spec fn unsigned_message(self) -> Seq<u8> {
        self.response.unsigned_message(self.nonce, self.values)
    }

    /// The message.
    pub open spec fn message(self) -> Seq<u8> {
        self.unsigned_message() + self.signature
    }

    /// Length that the message will have with its signature.
    pub open spec fn final_len(self) -> nat {
        self.unsigned_message().len() + self.response.signature_len()
    }

    /// Whether the message goes out in one piece.
    pub open spec fn goes_in_one_piece(self) -> bool {
        self.final_len() <= self.response.transport.data_transfer_size
    }

    /// Where in the buffer the next block goes.
    pub open spec fn block_at(self) -> nat {
        self.head() + MSG_HDR_SIZE as nat + MEASUREMENTS_FIXED_BODY_SIZE as nat
            + self.record().len()
    }

    /// Length of the buffer that the longest message needs, if there is one.
    pub open spec fn needed_capacity(self) -> Option<nat> {
        let raw = self.head() + self.response.max_message_len();
        let align = self.response.transport.send_len_alignment;
        if align == 0 || raw + align - 1 > usize::MAX {
            None
        } else {
            Some(round_up(raw, align as nat))
        }
    }

    /// Length of the message as it is sent, padded to the alignment.
    pub open spec fn padded_len(self) -> nat {
        round_up(
            self.head() + self.message().len(),
            self.response.transport.send_len_alignment as nat,
        )
    }

    /// The buffer as it is sent in one piece: the message behind the
    /// transport's bytes, and zero bytes up to the padded length.
    pub open spec fn packet(self) -> Seq<u8> {
        let end = self.head() + self.message().len();
        splice(
            self.backing,
            self.head() as int,
            self.message() + zeros((self.padded_len() - end) as nat),
        )
    }

    /// The buffer as it is kept for sending in chunks: the message in front.
    pub open spec fn large_buffer(self) -> Seq<u8> {
        shifted(
            splice(self.backing, self.head() as int, self.message()),
            self.head() as int,
            self.message().len() as int,
        )
    }

    /// Gives the exchange up.
    pub open spec fn fail(self, error: SpdmError) -> (ExchangeView, ActionView) {
        (
            ExchangeView { stage: Stage::Ended, ..self },
            ActionView::Failed {
                error,
                reset_large: self.stage is StartLarge,
                cleared: if self.stage.holds_buffer() {
                    Some(zeros(self.allocated.len()))
                } else {
                    None
                },
            },
        )
    }

    /// With a nonce: a buffer is needed for the longest message.
    pub open spec fn allocate(self) -> (ExchangeView, ActionView) {
        match self.needed_capacity() {
            Some(len) => (
                ExchangeView { stage: Stage::Allocate, ..self },
                ActionView::Allocate(len),
            ),
            None => self.fail(SpdmError::Unspecified),
        }
    }

    /// With a buffer: the message is begun.
    pub open spec fn begin(self) -> (ExchangeView, ActionView) {
        if self.head() + MSG_HDR_SIZE + MEASUREMENTS_FIXED_BODY_SIZE > self.allocated.len() {
            self.fail(SpdmError::Unspecified)
        } else {
            self.read_on()
        }
    }

    /// Reads the next measurement, if there is one and its block fits.
    pub open spec fn read_on(self) -> (ExchangeView, ActionView) {
        let n = self.values.len() as int;
        if n == self.response.entries.len() {
            self.close()
        } else {
            let entry = self.response.entries[n];
            if self.block_at() + block_capacity(entry) > self.allocated.len() {
                self.fail(SpdmError::Unspecified)
            } else {
                (
                    self,
                    ActionView::ReadValue {
                        index: entry.index,
                        nonce: self.response.requester_nonce(),
                        size: entry.value_size,
                    },
                )
            }
        }
    }

    /// With all values: the message is complete but for a signature. Its
    /// actual length tells whether it goes out in one piece.
    pub open spec fn close(self) -> (ExchangeView, ActionView) {
        if self.head() + self.unsigned_message().len() > self.allocated.len() {
            self.fail(SpdmError::Unspecified)
        } else if !self.goes_in_one_piece() {
            (
                ExchangeView { stage: Stage::CheckLarge, ..self },
                ActionView::ValidateLarge {
                    spdm_len: self.final_len(),
                    capacity: self.allocated.len(),
                },
            )
        } else {
            self.sign_or_send()
        }
    }

    /// A response that is to be signed goes into the transcript first.
    pub open spec fn sign_or_send(self) -> (ExchangeView, ActionView) {
        if self.response.signed() {
            (
                ExchangeView { stage: Stage::AppendResponse, ..self },
                ActionView::AppendTranscript(self.unsigned_message()),
            )
        } else {
            self.send()
        }
    }

    /// With the digest that is to be signed: the signature's place must be
    /// there.
    pub open spec fn sign(self, digest: Seq<u8>) -> (ExchangeView, ActionView) {
        if self.head() + self.final_len() > self.allocated.len() {
            self.fail(SpdmError::Unspecified)
        } else {
            (
                ExchangeView { stage: Stage::Sign, ..self },
                ActionView::Sign {
                    slot_id: self.response.slot_id(),
                    asym_algo: self.response.asym_algo,
                    digest,
                },
            )
        }
    }

    /// With the whole message: it goes out.
    pub open spec fn send(self) -> (ExchangeView, ActionView) {
        if !self.goes_in_one_piece() {
            (
                ExchangeView { stage: Stage::StartLarge, ..self },
                ActionView::StartLarge {
                    buf: self.large_buffer(),
                    spdm_len: self.message().len(),
                },
            )
        } else if self.padded_len() > self.allocated.len() {
            self.fail(SpdmError::Unspecified)
        } else {
            (
                ExchangeView { stage: Stage::Deliver, ..self },
                ActionView::Deliver {
                    buf: self.packet(),
                    len: self.padded_len(),
                    spdm_len: self.message().len(),
                },
            )
        }
    }

    /// Takes a reply: what the exchange comes to, and what is asked next. A
    /// reply that does not answer what was asked ends the exchange.
    pub open spec fn next(self, reply: ReplyView) -> (ExchangeView, ActionView) {
        match (self.stage, reply) {
            (Stage::AppendRequest, ReplyView::Done) => (
                ExchangeView { stage: Stage::Nonce, ..self },
                ActionView::GenerateNonce,
            ),
            (Stage::Nonce, ReplyView::Nonce(nonce)) => (ExchangeView { nonce, ..self }).allocate(),
            (Stage::Allocate, ReplyView::Buffer(allocated)) => (ExchangeView {
                stage: Stage::Value,
                allocated,
                backing: allocated,
                ..self
            }).begin(),
            (Stage::Value, ReplyView::Value(bytes, reported)) => {
                let entry = self.response.entries[self.values.len() as int];
                match accepted_len(entry, reported) {
                    Some(len) if bytes.len() == entry.value_size => (ExchangeView {
                        backing: splice(
                            self.backing,
                            self.block_at() + MEAS_BLOCK_METADATA_SIZE,
                            bytes,
                        ),
                        values: self.values.push(bytes.take(len as int)),
                        ..self
                    }).read_on(),
                    _ => self.fail(SpdmError::Unspecified),
                }
            },
            (Stage::CheckLarge, ReplyView::Done) => self.sign_or_send(),
            (Stage::AppendResponse, ReplyView::Done) => (
                ExchangeView { stage: Stage::FinalizeTranscript, ..self },
                ActionView::FinalizeTranscript,
            ),
            (Stage::FinalizeTranscript, ReplyView::Digest(transcript)) => (
                ExchangeView { stage: Stage::HashInit, transcript, ..self },
                ActionView::HashInit(signing_context_bytes(self.response.version)),
            ),
            (Stage::HashInit, ReplyView::Done) => (
                ExchangeView { stage: Stage::HashUpdate, ..self },
                ActionView::HashUpdate(self.transcript),
            ),
            (Stage::HashUpdate, ReplyView::Done) => (
                ExchangeView { stage: Stage::HashFinish, ..self },
                ActionView::HashFinish,
            ),
            (Stage::HashFinish, ReplyView::Digest(digest)) => self.sign(digest),
            (Stage::Sign, ReplyView::Signature(signature, len)) => if len
                != ECC_P384_SIGNATURE_SIZE {
                self.fail(SpdmError::Unspecified)
            } else {
                (ExchangeView { signature, ..self }).send()
            },
            (Stage::Deliver, ReplyView::Done) => (
                ExchangeView { stage: Stage::Ended, ..self },
                ActionView::Finished { spdm_len: self.message().len() },
            ),
            (Stage::StartLarge, ReplyView::Started(spdm_len)) => (
                ExchangeView { stage: Stage::Ended, ..self },
                ActionView::Finished { spdm_len },
            ),
            (stage, ReplyView::Failed(code)) => self.fail(
                if stage.passes_error_on() {
                    SpdmError::Platform(code)
                } else {
                    SpdmError::Unspecified
                },
            ),
            _ => self.fail(SpdmError::Unspecified),
        }
    }
}

/// The length of a message follows from the length of its record.
pub proof fn lemma_message_len(response: ResponseView, nonce: Seq<u8>, values: Seq<Seq<u8>>)
    requires
        response.wf(),
        nonce.len() == SPDM_NONCE_LEN,
        values_fit(response.entries, values),
    ensures
        response.unsigned_message(nonce, values).len() + response.signature_len()
            == response.frame_len() + record_bytes(response.entries, values).len(),
        record_bytes(response.entries, values).len() <= record_capacity(response.entries),
{
    lemma_record_len(response.entries, values);
    lemma_record_capacity_grows(response.entries, values.len() as int);
}

/// A `GET_MEASUREMENTS` exchange in progress.
pub struct Exchange {
    ctx: MeasurementsResponseCtx,
    stage: Stage,
    nonce: [u8; 32],
    /// The response buffer, while the machine holds it.
    buf: Vec<u8>,
    /// Where in the buffer the next byte goes.
    offset: usize,
    /// How many values were read.
    taken: usize,
    /// Length of the message with its signature.
    spdm_len: usize,
    /// The digest of the transcript.
    transcript: [u8; 48],
    allocated: Ghost<Seq<u8>>,
    backing: Ghost<Seq<u8>>,
    values: Ghost<Seq<Seq<u8>>>,
    signature: Ghost<Seq<u8>>,
}

impl View for Exchange {
    type V = ExchangeView;

    closed spec fn view(&self) -> ExchangeView {
        ExchangeView {
            response: self.ctx@,
            stage: self.stage,
            nonce: self.nonce@,
            allocated: self.allocated@,
            backing: self.backing@,
            values: self.values@,
            transcript: self.transcript@,
            signature: self.signature@,
        }
    }
}

impl Exchange {
    /// Whether the longest message and its padding can be counted.
    spec fn sized(&self) -> bool {
        let transport = self.ctx.transport;
        &&& transport.send_len_alignment != 0
        &&& self.ctx.max_spdm_len + transport.header_size + transport.send_len_alignment - 1
            <= usize::MAX
    }

    /// Whether the buffer holds the message as far as values were read, with
    /// a record length of zero.
    spec fn filling(&self) -> bool {
        let record = self@.record();
        &&& self.ctx.wf()
        &&& self.sized()
        &&& self.stage is Value
        &&& self.signature@.len() == 0
        &&& values_fit(self.ctx.entries@, self.values@)
        &&& self.taken == self.values@.len()
        &&& self.offset == self@.block_at()
        &&& self.offset <= self.allocated@.len() == self.backing@.len()
        &&& self.buf@ == splice(
            self.backing@,
            self@.head() as int,
            self.ctx@.opening(0) + record,
        )
    }

    /// Whether the buffer holds the message but for a signature.
    spec fn complete(&self) -> bool {
        &&& self.ctx.wf()
        &&& self.sized()
        &&& self.stage.holds_buffer()
        &&& self.signature@.len() == 0
        &&& values_fit(self.ctx.entries@, self.values@)
        &&& self.values@.len() == self.ctx.entries@.len()
        &&& self.offset == self@.head() + self@.unsigned_message().len()
        &&& self.offset <= self.allocated@.len() == self.backing@.len()
        &&& self.buf@ == splice(self.backing@, self@.head() as int, self@.unsigned_message())
        &&& self.spdm_len == self@.final_len()
    }

    /// Whether the machine is in order.
    pub closed spec fn wf(&self) -> bool {
        &&& self.ctx.wf()
        &&& match self.stage {
            Stage::AppendRequest | Stage::Nonce => self.values@.len() == 0
                && self.signature@.len() == 0,
            Stage::Allocate => self.sized() && self.values@.len() == 0 && self.signature@.len()
                == 0,
            Stage::Value => self.filling() && self.taken < self.ctx.entries@.len() && self.offset
                + block_capacity(self.ctx.entries@[self.taken as int]) <= self.allocated@.len(),
            Stage::CheckLarge => self.complete(),
            Stage::AppendResponse
            | Stage::FinalizeTranscript
            | Stage::HashInit
            | Stage::HashUpdate
            | Stage::HashFinish => self.complete() && self.ctx@.signed(),
            Stage::Sign => self.complete() && self.ctx@.signed() && self@.head()
                + self@.final_len() <= self.allocated@.len(),
            Stage::Deliver => self.spdm_len == self@.message().len(),
            Stage::StartLarge | Stage::Ended => true,
        }
    }

    /// Gives the exchange up, and clears the buffer.
    fn fail(&mut self, error: SpdmError) -> (action: Action)
        requires
            old(self).ctx.wf(),
            old(self).stage.holds_buffer() ==> old(self).buf@.len() == old(self).allocated@.len(),
        ensures
            final(self).wf(),
            (final(self)@, action@) == old(self)@.fail(error),
    {
        let reset_large: bool = match self.stage {
            Stage::StartLarge => true,
            _ => false,
        };
        let mut wiped: Option<Vec<u8>> = None;
        if self.stage.holds() {
            let mut buf: Vec<u8> = Vec::new();
            core::mem::swap(&mut buf, &mut self.buf);
            wiped = Some(cleared(buf));
        }
        self.stage = Stage::Ended;
        Action::Failed { error, reset_large, cleared: wiped }
    }

    /// With a nonce: asks for a buffer for the longest message.
    fn allocate(&mut self) -> (action: Action)
        requires
            old(self).ctx.wf(),
            old(self).stage is Nonce,
            old(self).values@.len() == 0,
            old(self).signature@.len() == 0,
        ensures
            final(self).wf(),
            (final(self)@, action@) == old(self)@.allocate(),
    {
        let raw_max_len: usize = match self.ctx.transport.header_size.checked_add(
            self.ctx.max_spdm_len,
        ) {
            Some(len) => len,
            None => return self.fail(SpdmError::Unspecified),
        };
        match align_send_len(self.ctx.transport.send_len_alignment, raw_max_len) {
            Ok(padded_max_len) => {
                self.stage = Stage::Allocate;
                Action::Allocate(padded_max_len)
            },
            Err(error) => self.fail(error),
        }
    }

    /// With a buffer: begins the message.
    fn begin(&mut self) -> (action: Action)
        requires
            old(self).ctx.wf(),
            old(self).sized(),
            old(self).stage is Value,
            old(self).values@.len() == 0,
            old(self).taken == 0,
            old(self).signature@.len() == 0,
            old(self).buf@ == old(self).allocated@,
            old(self).buf@ == old(self).backing@,
        ensures
            final(self).wf(),
            (final(self)@, action@) == old(self)@.begin(),
    {
        let head: usize = self.ctx.transport.header_size;
        let slot_id: u8 = self.ctx.request.slot_id;
        let content_changed: u8 = if self.ctx.request.signature_requested {
            2
        } else {
            0
        };
        assert(slot_id < 8 ==> (slot_id & 0x0Fu8) | ((2u8 & 0x03u8) << 4) == slot_id + 32)
            by (bit_vector);
        assert((0u8 & 0x0Fu8) | ((0u8 & 0x03u8) << 4) == 0) by (bit_vector);
        let number_of_blocks: u8 = self.ctx.entries.len() as u8;
        let opening: [u8; 8] = [
            self.ctx.version.to_u8(),
            MEASUREMENTS,
            self.ctx.total_number_of_measurement,
            (slot_id & 0x0F) | ((content_changed & 0x03) << 4),
            number_of_blocks,
            0,
            0,
            0,
        ];
        assert(opening@ =~= self.ctx@.opening(0));
        match write_into_slice(self.buf.as_mut_slice(), head, opening.as_slice()) {
            Ok(offset) => {
                self.offset = offset;
                assert(self.ctx@.opening(0) + self@.record() =~= self.ctx@.opening(0));
                self.read_on()
            },
            Err(error) => self.fail(error),
        }
    }

    /// Asks for the next measurement, or closes the message.
    fn read_on(&mut self) -> (action: Action)
        requires
            old(self).filling(),
        ensures
            final(self).wf(),
            (final(self)@, action@) == old(self)@.read_on(),
    {
        assert(self.buf@.len() == self.allocated@.len());
        if self.taken == self.ctx.entries.len() {
            return self.close();
        }
        let entry: MeasurementInfo = self.ctx.entries[self.taken];
        match block_value_range(&entry, self.buf.len(), self.offset) {
            Ok(_) => Action::ReadValue {
                index: entry.index,
                nonce: self.ctx.request.requester_nonce,
                size: entry.value_size,
            },
            Err(error) => self.fail(error),
        }
    }

    /// Takes the value of the next measurement, and clears the copy of it.
    fn take_value(&mut self, value: Vec<u8>, reported: Option<usize>) -> (action: Action)
        requires
            old(self).wf(),
            old(self).stage is Value,
        ensures
            final(self).wf(),
            (final(self)@, action@) == old(self)@.next(
                ReplyView::Value(value@, reported_len(reported)),
            ),
    {
        let ghost before = *self;
        let ghost bytes = value@;
        let entry: MeasurementInfo = self.ctx.entries[self.taken];
        assert(self.buf@.len() == self.allocated@.len());
        if value.len() != entry.value_size as usize {
            let _ = cleared(value);
            return self.fail(SpdmError::Unspecified);
        }
        let written: Result<usize, SpdmError> = write_measurement_record_block_into_slice(
            &entry,
            value.as_slice(),
            reported,
            self.buf.as_mut_slice(),
            self.offset,
        );
        let _ = cleared(value);
        match written {
            Ok(next) => {
                let ghost kept = bytes.take(accepted_len(entry, reported_len(reported))->0 as int);
                let ghost value_at = self.offset + MEAS_BLOCK_METADATA_SIZE;
                self.offset = next;
                self.taken = self.taken + 1;
                self.values = Ghost(self.values@.push(kept));
                self.backing = Ghost(splice(self.backing@, value_at, bytes));
                proof {
                    let opened = before.ctx@.opening(0) + before@.record();
                    assert(before.values@.push(kept).drop_last() =~= before.values@);
                    assert(self@.record() == before@.record() + block_bytes(entry, kept));
                    lemma_splices_commute(
                        before.backing@,
                        self@.head() as int,
                        opened,
                        value_at,
                        bytes,
                    );
                    lemma_splice_extends(
                        self.backing@,
                        self@.head() as int,
                        opened,
                        block_bytes(entry, kept),
                    );
                    assert(opened + block_bytes(entry, kept) =~= self.ctx@.opening(0)
                        + self@.record());
                }
                self.read_on()
            },
            Err(error) => self.fail(error),
        }
    }

    /// Completes the message but for a signature.
    #[verifier::rlimit(30)]
    fn close(&mut self) -> (action: Action)
        requires
            old(self).filling(),
            old(self).taken == old(self).ctx.entries@.len(),
        ensures
            final(self).wf(),
            (final(self)@, action@) == old(self)@.close(),
    {
        let ghost record = self@.record();
        let ghost head = self@.head() as int;
        let ghost opened = self.ctx@.opening(record.len());
        proof {
            lemma_message_len(self.ctx@, self.nonce@, self.values@);
            lemma_record_capacity_bound(self.ctx.entries@);
        }
        let record_start: usize = self.ctx.transport.header_size + MSG_HDR_SIZE
            + MEASUREMENTS_FIXED_BODY_SIZE;
        let record_len: usize = self.offset - record_start;
        let len_bytes: [u8; 3] = match u24_le(record_len) {
            Ok(bytes) => bytes,
            Err(error) => return self.fail(error),
        };
        match write_into_slice(self.buf.as_mut_slice(), record_start - 3, len_bytes.as_slice()) {
            Ok(_) => {},
            Err(error) => return self.fail(error),
        }
        proof {
            let written = self.ctx@.opening(0) + record;
            lemma_splice_edits(self.backing@, head, written, 5, len_bytes@);
            assert(splice(written, 5, len_bytes@) =~= opened + record);
        }
        match write_into_slice(self.buf.as_mut_slice(), self.offset, self.nonce.as_slice()) {
            Ok(next) => {
                self.offset = next;
            },
            Err(error) => return self.fail(error),
        }
        proof {
            lemma_splice_extends(self.backing@, head, opened + record, self.nonce@);
        }
        let opaque_len: [u8; 2] = [0, 0];
        assert(opaque_len@ =~= le16(0));
        match write_into_slice(self.buf.as_mut_slice(), self.offset, opaque_len.as_slice()) {
            Ok(next) => {
                self.offset = next;
            },
            Err(error) => return self.fail(error),
        }
        proof {
            lemma_splice_extends(self.backing@, head, opened + record + self.nonce@, le16(0));
        }
        match self.ctx.request.requester_context {
            Some(context) => {
                match write_into_slice(self.buf.as_mut_slice(), self.offset, context.as_slice()) {
                    Ok(next) => {
                        self.offset = next;
                    },
                    Err(error) => return self.fail(error),
                }
                proof {
                    lemma_splice_extends(
                        self.backing@,
                        head,
                        opened + record + self.nonce@ + le16(0),
                        context@,
                    );
                }
            },
            None => {},
        }
        assert(opened + record + self.nonce@ + le16(0) + self.ctx@.context()
            =~= self@.unsigned_message());
        assert(opened + record + self.nonce@ + le16(0) =~= opened + record + self.nonce@ + le16(0)
            + Seq::<u8>::empty());
        let signature_len: usize = if self.ctx.request.signature_requested {
            ECC_P384_SIGNATURE_SIZE
        } else {
            0
        };
        self.spdm_len = self.offset - self.ctx.transport.header_size + signature_len;
        if self.spdm_len > self.ctx.transport.data_transfer_size {
            self.stage = Stage::CheckLarge;
            Action::ValidateLarge { spdm_len: self.spdm_len, capacity: self.buf.len() }
        } else {
            self.sign_or_send()
        }
    }

    /// Asks for the response to go into the transcript where it is to be
    /// signed, and sends it where not.
    fn sign_or_send(&mut self) -> (action: Action)
        requires
            old(self).complete(),
        ensures
            final(self).wf(),
            (final(self)@, action@) == old(self)@.sign_or_send(),
    {
        if self.ctx.request.signature_requested {
            let head: usize = self.ctx.transport.header_size;
            let message: &[u8] = vstd::slice::slice_subrange(
                self.buf.as_slice(),
                head,
                self.offset,
            );
            let bytes: Vec<u8> = vstd::slice::slice_to_vec(message);
            assert(bytes@ =~= self@.unsigned_message());
            self.stage = Stage::AppendResponse;
            Action::AppendTranscript(bytes)
        } else {
            assert(self@.message() =~= self@.unsigned_message());
            self.send()
        }
    }

    /// Asks for a signature of the digest.
    fn sign(&mut self, digest: [u8; 48]) -> (action: Action)
        requires
            old(self).wf(),
            old(self).stage is HashFinish,
        ensures
            final(self).wf(),
            (final(self)@, action@) == old(self)@.sign(digest@),
    {
        if self.buf.len() - self.offset < ECC_P384_SIGNATURE_SIZE {
            return self.fail(SpdmError::Unspecified);
        }
        self.stage = Stage::Sign;
        Action::Sign {
            slot_id: self.ctx.request.slot_id,
            asym_algo: self.ctx.asym_algo,
            digest,
        }
    }

    /// Takes the signature.
    fn take_signature(&mut self, signature: [u8; 96], len: usize) -> (action: Action)
        requires
            old(self).wf(),
            old(self).stage is Sign,
        ensures
            final(self).wf(),
            (final(self)@, action@) == old(self)@.next(
                ReplyView::Signature(signature@, len as nat),
            ),
    {
        if len != ECC_P384_SIGNATURE_SIZE {
            return self.fail(SpdmError::Unspecified);
        }
        match write_into_slice(self.buf.as_mut_slice(), self.offset, signature.as_slice()) {
            Ok(next) => {
                self.offset = next;
            },
            Err(error) => return self.fail(error),
        }
        self.signature = Ghost(signature@);
        proof {
            lemma_splice_extends(
                self.backing@,
                self@.head() as int,
                self@.unsigned_message(),
                signature@,
            );
        }
        self.send()
    }

    /// Hands the message out.
    fn send(&mut self) -> (action: Action)
        requires
            old(self).ctx.wf(),
            old(self).sized(),
            old(self).stage.holds_buffer(),
            old(self).values@.len() == old(self).ctx.entries@.len(),
            values_fit(old(self).ctx.entries@, old(self).values@),
            old(self).spdm_len == old(self)@.final_len() == old(self)@.message().len(),
            old(self)@.head() + old(self).spdm_len <= old(self).allocated@.len(),
            old(self).backing@.len() == old(self).allocated@.len(),
            old(self).buf@ == splice(
                old(self).backing@,
                old(self)@.head() as int,
                old(self)@.message(),
            ),
        ensures
            final(self).wf(),
            (final(self)@, action@) == old(self)@.send(),
    {
        let head: usize = self.ctx.transport.header_size;
        proof {
            lemma_message_len(self.ctx@, self.nonce@, self.values@);
            law_round_up_is_tight_multiple(
                self@.head() + self@.message().len(),
                self.ctx.transport.send_len_alignment as nat,
            );
        }
        if self.spdm_len <= self.ctx.transport.data_transfer_size {
            let raw_len: usize = head + self.spdm_len;
            let padded_len: usize = match align_send_len(
                self.ctx.transport.send_len_alignment,
                raw_len,
            ) {
                Ok(len) => len,
                Err(error) => return self.fail(error),
            };
            match zero_slice(self.buf.as_mut_slice(), raw_len, padded_len) {
                Ok(()) => {},
                Err(error) => return self.fail(error),
            }
            proof {
                lemma_splice_extends(
                    self.backing@,
                    head as int,
                    self@.message(),
                    zeros((padded_len - raw_len) as nat),
                );
            }
            let mut buf: Vec<u8> = Vec::new();
            core::mem::swap(&mut buf, &mut self.buf);
            self.stage = Stage::Deliver;
            Action::Deliver { buf, len: padded_len, spdm_len: self.spdm_len }
        } else {
            match shift_left(self.buf.as_mut_slice(), head, self.spdm_len) {
                Ok(()) => {},
                Err(error) => return self.fail(error),
            }
            let mut buf: Vec<u8> = Vec::new();
            core::mem::swap(&mut buf, &mut self.buf);
            self.stage = Stage::StartLarge;
            Action::StartLarge { buf, spdm_len: self.spdm_len }
        }
    }

    /// Takes a reply, and tells what the platform is to do next.
    pub fn step(&mut self, reply: Reply) -> (action: Action)
        requires
            old(self).wf(),
        ensures
            final(self).wf(),
            (final(self)@, action@) == old(self)@.next(reply@),
    {
        match (self.stage, reply) {
            (Stage::AppendRequest, Reply::Done) => {
                self.stage = Stage::Nonce;
                Action::GenerateNonce
            },
            (Stage::Nonce, Reply::Nonce(nonce)) => {
                self.nonce = nonce;
                self.allocate()
            },
            (Stage::Allocate, Reply::Buffer(buf)) => {
                self.allocated = Ghost(buf@);
                self.backing = Ghost(buf@);
                self.buf = buf;
                self.taken = 0;
                self.stage = Stage::Value;
                self.begin()
            },
            (Stage::Value, Reply::Value(value, reported)) => self.take_value(value, reported),
            (Stage::CheckLarge, Reply::Done) => self.sign_or_send(),
            (Stage::AppendResponse, Reply::Done) => {
                self.stage = Stage::FinalizeTranscript;
                Action::FinalizeTranscript
            },
            (Stage::FinalizeTranscript, Reply::Digest(transcript)) => {
                self.transcript = transcript;
                self.stage = Stage::HashInit;
                Action::HashInit(signing_context(self.ctx.version))
            },
            (Stage::HashInit, Reply::Done) => {
                self.stage = Stage::HashUpdate;
                Action::HashUpdate(self.transcript)
            },
            (Stage::HashUpdate, Reply::Done) => {
                self.stage = Stage::HashFinish;
                Action::HashFinish
            },
            (Stage::HashFinish, Reply::Digest(digest)) => self.sign(digest),
            (Stage::Sign, Reply::Signature(signature, len)) => self.take_signature(signature, len),
            (Stage::Deliver, Reply::Done) => {
                self.stage = Stage::Ended;
                Action::Finished { spdm_len: self.spdm_len }
            },
            (Stage::StartLarge, Reply::Started(spdm_len)) => {
                self.stage = Stage::Ended;
                Action::Finished { spdm_len }
            },
            (stage, Reply::Failed(code)) => if stage.passes_on() {
                self.fail(SpdmError::Platform(code))
            } else {
                self.fail(SpdmError::Unspecified)
            },
            _ => self.fail(SpdmError::Unspecified),
        }
    }
}

/// Takes a `GET_MEASUREMENTS` request: the exchange that answers it, and what
/// the platform is to do first; or why the request is refused.
pub fn handle_get_measurements_req(
    connection: &Connection,
    transport: &Transport,
    provisioned_slots: u8,
    info: &[MeasurementInfo],
    req: &[u8],
) -> (r: Result<(Exchange, Action), SpdmError>)
    ensures
        match r {
            Ok((exchange, action)) => {
                &&& exchange.wf()
                &&& response_to(
                    *connection,
                    *transport,
                    provisioned_slots,
                    info@,
                    req@,
                ) matches Ok(response)
                &&& (exchange@, action@) == ExchangeView::start(response, req@)
            },
            Err(e) => response_to(*connection, *transport, provisioned_slots, info@, req@) == Err::<
                ResponseView,
                SpdmError,
            >(e),
        },
{
    let ctx: MeasurementsResponseCtx = plan_response(
        connection,
        transport,
        provisioned_slots,
        info,
        req,
    )?;
    let signed: bool = ctx.request.signature_requested;
    let spdm_req_len: usize = ctx.request.spdm_len;
    let nonce: [u8; 32] = [0u8;32];
    let transcript: [u8; 48] = [0u8;48];
    assert(nonce@ =~= zeros(SPDM_NONCE_LEN as nat));
    assert(transcript@ =~= zeros(SHA384_HASH_SIZE as nat));
    let mut exchange: Exchange = Exchange {
        ctx,
        stage: Stage::Nonce,
        nonce,
        buf: Vec::new(),
        offset: 0,
        taken: 0,
        spdm_len: 0,
        transcript,
        allocated: Ghost(Seq::empty()),
        backing: Ghost(Seq::empty()),
        values: Ghost(Seq::empty()),
        signature: Ghost(Seq::empty()),
    };
    if signed {
        let message: &[u8] = vstd::slice::slice_subrange(req, 0, spdm_req_len);
        let bytes: Vec<u8> = vstd::slice::slice_to_vec(message);
        assert(bytes@ =~= req@.take(spdm_req_len as int));
        exchange.stage = Stage::AppendRequest;
        Ok((exchange, Action::AppendTranscript(bytes)))
    } else {
        Ok((exchange, Action::GenerateNonce))
    }
}

} // verus!
