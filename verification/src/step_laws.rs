//! What each reply makes of an exchange, stage by stage.
use crate::block::record_bytes;
use crate::buffer::{
    law_round_up_is_least, law_round_up_is_tight_multiple, law_shifted_bytes, law_splice_bytes,
    law_zeros_are_zero, splice, zeros,
};
use crate::error::SpdmError;
use crate::exchange::{Action, ActionView, ExchangeView, Reply, ReplyView, Stage};
use crate::request_laws::{fields_len, law_request_length};
use crate::response::ResponseView;
use crate::signing::signing_context_bytes;
use vstd::prelude::*;

verus! {

/// What a reply says is what it holds.
pub proof fn law_view_of_reply(reply: Reply)
    ensures
        match reply {
            Reply::Done => reply@ == ReplyView::Done,
            Reply::Nonce(nonce) => reply@ == ReplyView::Nonce(nonce@),
            Reply::Buffer(buf) => reply@ == ReplyView::Buffer(buf@),
            Reply::Value(value, Some(len)) => reply@ == ReplyView::Value(value@, Some(len as nat)),
            Reply::Value(value, None) => reply@ == ReplyView::Value(value@, None),
            Reply::Digest(digest) => reply@ == ReplyView::Digest(digest@),
            Reply::Signature(signature, len) => reply@ == ReplyView::Signature(
                signature@,
                len as nat,
            ),
            Reply::Started(len) => reply@ == ReplyView::Started(len as nat),
            Reply::Failed(code) => reply@ == ReplyView::Failed(code),
        },
{
}

/// What an action says is what it holds.
pub proof fn law_view_of_action(action: Action)
    ensures
        match action {
            Action::AppendTranscript(bytes) => action@ == ActionView::AppendTranscript(bytes@),
            Action::GenerateNonce => action@ == ActionView::GenerateNonce,
            Action::Allocate(len) => action@ == ActionView::Allocate(len as nat),
            Action::ReadValue { index, nonce: Some(nonce), size } => action@
                == ActionView::ReadValue { index, nonce: Some(nonce@), size },
            Action::ReadValue { index, nonce: None, size } => action@ == ActionView::ReadValue {
                index,
                nonce: None,
                size,
            },
            Action::ValidateLarge { spdm_len, capacity } => action@ == ActionView::ValidateLarge {
                spdm_len: spdm_len as nat,
                capacity: capacity as nat,
            },
            Action::FinalizeTranscript => action@ == ActionView::FinalizeTranscript,
            Action::HashInit(context) => action@ == ActionView::HashInit(context@),
            Action::HashUpdate(digest) => action@ == ActionView::HashUpdate(digest@),
            Action::HashFinish => action@ == ActionView::HashFinish,
            Action::Sign { slot_id, asym_algo, digest } => action@ == ActionView::Sign {
                slot_id,
                asym_algo,
                digest: digest@,
            },
            Action::Deliver { buf, len, spdm_len } => action@ == ActionView::Deliver {
                buf: buf@,
                len: len as nat,
                spdm_len: spdm_len as nat,
            },
            Action::StartLarge { buf, spdm_len } => action@ == ActionView::StartLarge {
                buf: buf@,
                spdm_len: spdm_len as nat,
            },
            Action::Finished { spdm_len } => action@ == ActionView::Finished {
                spdm_len: spdm_len as nat,
            },
            Action::Failed { error, reset_large, cleared: Some(buf) } => action@
                == ActionView::Failed { error, reset_large, cleared: Some(buf@) },
            Action::Failed { error, reset_large, cleared: None } => action@ == ActionView::Failed {
                error,
                reset_large,
                cleared: None,
            },
        },
{
}

/// Whether the machine has the response buffer in its hands.
pub open spec fn has_buffer(stage: Stage) -> bool {
    match stage {
        Stage::AppendRequest | Stage::Nonce | Stage::Allocate => false,
        Stage::Value
        | Stage::CheckLarge
        | Stage::AppendResponse
        | Stage::FinalizeTranscript
        | Stage::HashInit
        | Stage::HashUpdate
        | Stage::HashFinish
        | Stage::Sign => true,
        Stage::Deliver | Stage::StartLarge | Stage::Ended => false,
    }
}

/// Whether an exchange was given up: it is over, and the error is reported. A
/// buffer that it had in its hands comes back with every byte zero, and a
/// message that was to go in chunks is forgotten.
pub open spec fn is_given_up(
    s: ExchangeView,
    error: SpdmError,
    t: ExchangeView,
    action: ActionView,
) -> bool {
    &&& t.stage == Stage::Ended
    &&& action is Failed
    &&& action->error == error
    &&& action->reset_large == (s.stage == Stage::StartLarge)
    &&& match action->cleared {
        Some(buf) => {
            &&& has_buffer(s.stage)
            &&& buf.len() == s.allocated.len()
            &&& forall|i: int| 0 <= i < buf.len() ==> #[trigger] buf[i] == 0
        },
        None => !has_buffer(s.stage),
    }
}

proof fn lemma_fail_gives_up(s: ExchangeView, error: SpdmError)
    ensures
        is_given_up(s, error, s.fail(error).0, s.fail(error).1),
{
    law_zeros_are_zero(s.allocated.len());
}

/// When the platform fails, its own code is reported for the transcript, the
/// buffer and sending in chunks; for everything else the error does not tell.
pub proof fn law_failure_is_reported(s: ExchangeView, code: u32)
    ensures
        is_given_up(
            s,
            match s.stage {
                Stage::AppendRequest
                | Stage::Allocate
                | Stage::CheckLarge
                | Stage::AppendResponse
                | Stage::FinalizeTranscript
                | Stage::StartLarge => SpdmError::Platform(code),
                _ => SpdmError::Unspecified,
            },
            s.next(ReplyView::Failed(code)).0,
            s.next(ReplyView::Failed(code)).1,
        ),
{
    lemma_fail_gives_up(s, SpdmError::Platform(code));
    lemma_fail_gives_up(s, SpdmError::Unspecified);
}

/// Whether a reply answers what a stage waits for.
pub open spec fn answers(stage: Stage, reply: ReplyView) -> bool {
    match stage {
        Stage::AppendRequest
        | Stage::CheckLarge
        | Stage::AppendResponse
        | Stage::HashInit
        | Stage::HashUpdate
        | Stage::Deliver => reply is Done,
        Stage::Nonce => reply is Nonce,
        Stage::Allocate => reply is Buffer,
        Stage::Value => reply is Value,
        Stage::FinalizeTranscript | Stage::HashFinish => reply is Digest,
        Stage::Sign => reply is Signature,
        Stage::StartLarge => reply is Started,
        Stage::Ended => false,
    }
}

/// A reply that does not answer what was asked ends the exchange.
pub proof fn law_stray_reply_gives_up(s: ExchangeView, reply: ReplyView)
    requires
        !answers(s.stage, reply),
        !(reply is Failed),
    ensures
        is_given_up(s, SpdmError::Unspecified, s.next(reply).0, s.next(reply).1),
{
    lemma_fail_gives_up(s, SpdmError::Unspecified);
}

/// Whether a whole message is sent: in chunks where it is longer than goes in
/// one piece, from the front of its buffer; and else in one piece, behind the
/// transport's bytes and padded with zero bytes to a multiple of the
/// alignment, where that fits.
pub open spec fn is_sending(
    s: ExchangeView,
    message: Seq<u8>,
    t: ExchangeView,
    action: ActionView,
) -> bool {
    let head = s.response.transport.header_size as int;
    let align = s.response.transport.send_len_alignment as int;
    let end = head + message.len();
    if message.len() > s.response.transport.data_transfer_size {
        &&& t == (ExchangeView { stage: Stage::StartLarge, ..s })
        &&& action is StartLarge
        &&& action->StartLarge_spdm_len == message.len()
        &&& action->StartLarge_buf.len() == s.backing.len()
        &&& forall|i: int|
            0 <= i < message.len() ==> action->StartLarge_buf[i] == #[trigger] message[i]
    } else if action is Deliver {
        let len = action->Deliver_len as int;
        let buf = action->Deliver_buf;
        &&& t == (ExchangeView { stage: Stage::Deliver, ..s })
        &&& action->Deliver_spdm_len == message.len()
        &&& buf.len() == s.backing.len()
        &&& end <= len < end + align
        &&& len % align == 0
        &&& len <= s.allocated.len()
        &&& forall|i: int| 0 <= i < head ==> #[trigger] buf[i] == s.backing[i]
        &&& forall|i: int| 0 <= i < message.len() ==> buf[head + i] == #[trigger] message[i]
        &&& forall|i: int| end <= i < len ==> #[trigger] buf[i] == 0
    } else {
        &&& is_given_up(s, SpdmError::Unspecified, t, action)
        &&& forall|len: int|
            end <= len && #[trigger] (len % align) == 0 ==> len > s.allocated.len()
    }
}

/// Sending a whole message.
proof fn lemma_send(s: ExchangeView)
    requires
        s.response.transport.send_len_alignment > 0,
        s.backing.len() == s.allocated.len(),
        s.message().len() == s.final_len(),
        s.head() + s.message().len() <= s.allocated.len(),
    ensures
        is_sending(s, s.message(), s.send().0, s.send().1),
{
    let head = s.head() as int;
    let align = s.response.transport.send_len_alignment as nat;
    let message = s.message();
    let end = (head + message.len()) as nat;
    let (t, action) = s.send();
    law_round_up_is_tight_multiple(end, align);
    if message.len() > s.response.transport.data_transfer_size {
        let whole = splice(s.backing, head, message);
        law_splice_bytes(s.backing, head, message);
        law_shifted_bytes(whole, head, message.len() as int);
        assert forall|i: int| 0 <= i < message.len() implies action->StartLarge_buf[i]
            == #[trigger] message[i] by {
            assert(whole[head + i] == message[i]);
        }
    } else if s.padded_len() > s.allocated.len() {
        lemma_fail_gives_up(s, SpdmError::Unspecified);
        assert forall|len: int|
            end <= len && #[trigger] (len % align as int) == 0 implies len > s.allocated.len() by {
            law_round_up_is_least(end, align, len as nat);
        }
    } else {
        let rest = zeros((s.padded_len() - end) as nat);
        law_zeros_are_zero((s.padded_len() - end) as nat);
        law_splice_bytes(s.backing, head, message + rest);
        assert forall|i: int| 0 <= i < message.len() implies action->Deliver_buf[head + i]
            == #[trigger] message[i] by {
            assert((message + rest)[i] == message[i]);
        }
        assert forall|i: int| end <= i < s.padded_len() implies #[trigger] action->Deliver_buf[i]
            == 0 by {
            assert((message + rest)[i - head] == rest[i - end]);
        }
    }
}

/// Whether an exchange with some values turns to what is next: the next
/// measurement, where its longest block has room; and with all values, where
/// the message has room, to whether it can go in chunks if it is too long for
/// one piece, to the transcript if it is to be signed, and else to sending.
pub open spec fn is_turn(s: ExchangeView, t: ExchangeView, action: ActionView) -> bool {
    let n = s.values.len() as int;
    let entry = s.response.entries[n];
    let head = s.response.transport.header_size as int;
    let at = head + 8 + record_bytes(s.response.entries, s.values).len();
    let message = s.response.unsigned_message(s.nonce, s.values);
    let signed = s.response.request.signature is Some;
    if n < s.response.entries.len() {
        if at + 7 + entry.value_size <= s.allocated.len() {
            &&& t == s
            &&& action == ActionView::ReadValue {
                index: entry.index,
                nonce: match s.response.request.signature {
                    Some((nonce, _)) => Some(nonce),
                    None => None,
                },
                size: entry.value_size,
            }
        } else {
            is_given_up(s, SpdmError::Unspecified, t, action)
        }
    } else if head + message.len() > s.allocated.len() {
        is_given_up(s, SpdmError::Unspecified, t, action)
    } else {
        is_going_out(s, message, t, action)
    }
}

/// Whether a message that is complete but for a signature goes on its way.
pub open spec fn is_going_out(
    s: ExchangeView,
    message: Seq<u8>,
    t: ExchangeView,
    action: ActionView,
) -> bool {
    let signed = s.response.request.signature is Some;
    let whole = message.len() + (if signed {
        96int
    } else {
        0
    });
    if whole > s.response.transport.data_transfer_size && s.stage != Stage::CheckLarge {
        &&& t == (ExchangeView { stage: Stage::CheckLarge, ..s })
        &&& action == ActionView::ValidateLarge {
            spdm_len: whole as nat,
            capacity: s.allocated.len(),
        }
    } else if signed {
        &&& t == (ExchangeView { stage: Stage::AppendResponse, ..s })
        &&& action == ActionView::AppendTranscript(message)
    } else {
        is_sending(s, message, t, action)
    }
}

proof fn lemma_sign_or_send(s: ExchangeView)
    requires
        s.response.transport.send_len_alignment > 0,
        s.backing.len() == s.allocated.len(),
        s.signature.len() == 0,
        s.head() + s.unsigned_message().len() <= s.allocated.len(),
        s.goes_in_one_piece() || s.stage == Stage::CheckLarge,
    ensures
        is_going_out(s, s.unsigned_message(), s.sign_or_send().0, s.sign_or_send().1),
{
    if !s.response.signed() {
        assert(s.message() =~= s.unsigned_message());
        lemma_send(s);
    }
}

proof fn lemma_turn(s: ExchangeView)
    requires
        s.response.transport.send_len_alignment > 0,
        s.backing.len() == s.allocated.len(),
        s.signature.len() == 0,
        s.values.len() <= s.response.entries.len(),
        s.stage == Stage::Value,
    ensures
        is_turn(s, s.read_on().0, s.read_on().1),
{
    lemma_fail_gives_up(s, SpdmError::Unspecified);
    if s.values.len() == s.response.entries.len() && s.head() + s.unsigned_message().len()
        <= s.allocated.len() && s.goes_in_one_piece() {
        lemma_sign_or_send(s);
    }
}

/// How an exchange begins: a request for a signature goes into the transcript,
/// without what follows its fields; any other begins with a nonce.
pub proof fn law_exchange_begins(response: ResponseView, req: Seq<u8>)
    ensures
        ({
            let (s, action) = ExchangeView::start(response, req);
            let signed = response.request.signature is Some;
            &&& s.response == response
            &&& s.values.len() == 0
            &&& s.signature.len() == 0
            &&& s.allocated.len() == 0
            &&& s.backing.len() == 0
            &&& signed ==> s.stage == Stage::AppendRequest && action
                == ActionView::AppendTranscript(req.take(fields_len(response.version, true)))
            &&& !signed ==> s.stage == Stage::Nonce && action == ActionView::GenerateNonce
        }),
{
    law_request_length(response.version, true);
}

/// With the request in the transcript, a nonce is asked for.
pub proof fn law_request_is_appended(s: ExchangeView)
    requires
        s.stage == Stage::AppendRequest,
    ensures
        s.next(ReplyView::Done) == (
            ExchangeView { stage: Stage::Nonce, ..s },
            ActionView::GenerateNonce,
        ),
{
}

/// With a nonce, a buffer is asked for: the least multiple of the alignment
/// that holds the transport's bytes and the longest message. Where there is no
/// alignment, or the sum that rounds up cannot be counted, the exchange is
/// given up.
pub proof fn law_nonce_is_taken(s: ExchangeView, nonce: Seq<u8>)
    requires
        s.stage == Stage::Nonce,
    ensures
        ({
            let (t, action) = s.next(ReplyView::Nonce(nonce));
            let align = s.response.transport.send_len_alignment as int;
            let longest = s.response.transport.header_size + s.response.max_message_len();
            if align == 0 || longest + align - 1 > usize::MAX {
                is_given_up(s, SpdmError::Unspecified, t, action)
            } else {
                &&& t == (ExchangeView { stage: Stage::Allocate, nonce, ..s })
                &&& action is Allocate
                &&& action->Allocate_0 % (align as nat) == 0
                &&& longest <= action->Allocate_0 < longest + align
            }
        }),
{
    let align = s.response.transport.send_len_alignment as nat;
    let longest = s.head() + s.response.max_message_len();
    lemma_fail_gives_up(ExchangeView { nonce, ..s }, SpdmError::Unspecified);
    if align > 0 {
        law_round_up_is_tight_multiple(longest, align);
    }
}

/// With a buffer that has room for the fixed fields, the first measurement is
/// turned to.
pub proof fn law_buffer_is_taken(s: ExchangeView, buf: Seq<u8>)
    requires
        s.stage == Stage::Allocate,
        s.response.transport.send_len_alignment > 0,
        s.values.len() == 0,
        s.signature.len() == 0,
    ensures
        ({
            let (t, action) = s.next(ReplyView::Buffer(buf));
            let with = ExchangeView { stage: Stage::Value, allocated: buf, backing: buf, ..s };
            if s.response.transport.header_size + 8 > buf.len() {
                is_given_up(with, SpdmError::Unspecified, t, action)
            } else {
                is_turn(with, t, action)
            }
        }),
{
    let with = ExchangeView { stage: Stage::Value, allocated: buf, backing: buf, ..s };
    lemma_fail_gives_up(with, SpdmError::Unspecified);
    lemma_turn(with);
}

/// A value is taken exactly when the measurement left as many bytes as it was
/// asked for, and reported a length that is no more than those and than a
/// block can count. The first bytes, as many as were reported, are the value;
/// all the bytes stay in the buffer behind the place of the block's header;
/// and the next measurement is turned to.
pub proof fn law_value_is_taken(s: ExchangeView, bytes: Seq<u8>, reported: Option<nat>)
    requires
        s.stage == Stage::Value,
        s.response.transport.send_len_alignment > 0,
        s.values.len() < s.response.entries.len(),
        s.signature.len() == 0,
        s.backing.len() == s.allocated.len(),
        s.response.transport.header_size + 8 + record_bytes(s.response.entries, s.values).len() + 7
            + s.response.entries[s.values.len() as int].value_size <= s.allocated.len(),
    ensures
        ({
            let (t, action) = s.next(ReplyView::Value(bytes, reported));
            let entry = s.response.entries[s.values.len() as int];
            let at = s.response.transport.header_size + 8 + record_bytes(
                s.response.entries,
                s.values,
            ).len() + 7;
            if reported is Some && reported->0 <= entry.value_size && reported->0 <= 65532
                && bytes.len() == entry.value_size {
                is_turn(
                    ExchangeView {
                        values: s.values.push(bytes.take(reported->0 as int)),
                        backing: splice(s.backing, at, bytes),
                        ..s
                    },
                    t,
                    action,
                )
            } else {
                is_given_up(s, SpdmError::Unspecified, t, action)
            }
        }),
{
    let entry = s.response.entries[s.values.len() as int];
    let at = s.block_at() as int + 7;
    lemma_fail_gives_up(s, SpdmError::Unspecified);
    if reported is Some && reported->0 <= entry.value_size && reported->0 <= 65532 && bytes.len()
        == entry.value_size {
        law_splice_bytes(s.backing, at, bytes);
        lemma_turn(
            ExchangeView {
                values: s.values.push(bytes.take(reported->0 as int)),
                backing: splice(s.backing, at, bytes),
                ..s
            },
        );
    }
}

/// A message that can go in chunks goes on its way.
pub proof fn law_large_message_is_checked(s: ExchangeView)
    requires
        s.stage == Stage::CheckLarge,
        s.response.transport.send_len_alignment > 0,
        s.signature.len() == 0,
        s.backing.len() == s.allocated.len(),
        s.response.transport.header_size + s.response.unsigned_message(s.nonce, s.values).len()
            <= s.allocated.len(),
    ensures
        ({
            let (t, action) = s.next(ReplyView::Done);
            is_going_out(s, s.response.unsigned_message(s.nonce, s.values), t, action)
        }),
{
    lemma_sign_or_send(s);
}

/// From the transcript to the digest: the transcript is finalized, and the
/// signing context of the version and the transcript's digest are fed, in this
/// order.
pub proof fn law_digest_is_taken(s: ExchangeView, digest: Seq<u8>)
    ensures
        s.stage == Stage::AppendResponse ==> s.next(ReplyView::Done) == (
            ExchangeView { stage: Stage::FinalizeTranscript, ..s },
            ActionView::FinalizeTranscript,
        ),
        s.stage == Stage::FinalizeTranscript ==> s.next(ReplyView::Digest(digest)) == (
            ExchangeView { stage: Stage::HashInit, transcript: digest, ..s },
            ActionView::HashInit(signing_context_bytes(s.response.version)),
        ),
        s.stage == Stage::HashInit ==> s.next(ReplyView::Done) == (
            ExchangeView { stage: Stage::HashUpdate, ..s },
            ActionView::HashUpdate(s.transcript),
        ),
        s.stage == Stage::HashUpdate ==> s.next(ReplyView::Done) == (
            ExchangeView { stage: Stage::HashFinish, ..s },
            ActionView::HashFinish,
        ),
{
}

/// The digest is signed as it came, with the slot of the request and the
/// algorithm of the connection, where the signature will have room.
pub proof fn law_digest_is_signed(s: ExchangeView, digest: Seq<u8>, nonce: Seq<u8>, slot_id: u8)
    requires
        s.stage == Stage::HashFinish,
        s.response.request.signature == Some((nonce, slot_id)),
    ensures
        ({
            let (t, action) = s.next(ReplyView::Digest(digest));
            let len = s.response.unsigned_message(s.nonce, s.values).len();
            if s.response.transport.header_size + len + 96 > s.allocated.len() {
                is_given_up(s, SpdmError::Unspecified, t, action)
            } else {
                &&& t == (ExchangeView { stage: Stage::Sign, ..s })
                &&& action == ActionView::Sign {
                    slot_id,
                    asym_algo: s.response.asym_algo,
                    digest,
                }
            }
        }),
{
    lemma_fail_gives_up(s, SpdmError::Unspecified);
}

/// A signature of 96 bytes goes behind the message as the signer left it, byte
/// for byte, and the message is sent. Any other length is refused.
pub proof fn law_signature_is_taken(s: ExchangeView, signature: Seq<u8>, len: nat)
    requires
        s.stage == Stage::Sign,
        signature.len() == 96,
        s.response.transport.send_len_alignment > 0,
        s.response.request.signature is Some,
        s.backing.len() == s.allocated.len(),
        s.response.transport.header_size + s.response.unsigned_message(s.nonce, s.values).len() + 96
            <= s.allocated.len(),
    ensures
        ({
            let (t, action) = s.next(ReplyView::Signature(signature, len));
            let message = s.response.unsigned_message(s.nonce, s.values);
            if len == 96 {
                is_sending(ExchangeView { signature, ..s }, message + signature, t, action)
            } else {
                is_given_up(s, SpdmError::Unspecified, t, action)
            }
        }),
{
    lemma_fail_gives_up(s, SpdmError::Unspecified);
    let with = ExchangeView { signature, ..s };
    assert(with.message() == s.response.unsigned_message(s.nonce, s.values) + signature);
    if len == 96 {
        lemma_send(with);
    }
}

/// When a message went out, the exchange is over, and reports the length of
/// the message, or what the platform says has begun to go out in chunks.
pub proof fn law_sending_is_reported(s: ExchangeView, started: nat)
    ensures
        s.stage == Stage::Deliver ==> s.next(ReplyView::Done) == (
            ExchangeView { stage: Stage::Ended, ..s },
            ActionView::Finished {
                spdm_len: s.response.unsigned_message(s.nonce, s.values).len() + s.signature.len(),
            },
        ),
        s.stage == Stage::StartLarge ==> s.next(ReplyView::Started(started)) == (
            ExchangeView { stage: Stage::Ended, ..s },
            ActionView::Finished { spdm_len: started },
        ),
{
}

} // verus!
