//! What the bytes that go out of an exchange are, in terms of the request, the
//! measurements and the replies.
use crate::block::{block_capacity, record_bytes, values_fit};
use crate::buffer::law_round_up_is_tight_multiple;
use crate::exchange::{ActionView, ExchangeView, Reply, ReplyView, Stage};
use crate::exchange_laws::{
    actions_after, in_order, law_delivered_message_is_whole, law_large_message_is_whole,
    law_run_keeps_order, law_start_is_in_order, sized_replies, sized_reply, state_after,
};
use crate::message_laws::{is_message, law_message_bytes};
use crate::request_laws::{
    fields_len, law_fields_of_accepted_request, law_request_length,
    law_what_is_decided_of_a_response,
};
use crate::response::{
    law_accepted_request_is_in_order, response_to, Connection, ResponseView, Transport,
};
use crate::signing::signing_context_bytes;
use crate::spdm::{MeasurementInfo, SpdmVersion};
use vstd::prelude::*;

verus! {

/// A run goes on reply by reply, one action for each.
pub proof fn law_runs_go_step_by_step(s: ExchangeView, replies: Seq<ReplyView>, reply: ReplyView)
    ensures
        state_after(s, Seq::empty()) == s,
        actions_after(s, Seq::empty()) == Seq::<ActionView>::empty(),
        state_after(s, replies.push(reply)) == state_after(s, replies).next(reply).0,
        actions_after(s, replies.push(reply)) == actions_after(s, replies).push(
            state_after(s, replies).next(reply).1,
        ),
{
    reveal(state_after);
    reveal(actions_after);
    assert(replies.push(reply).drop_last() =~= replies);
}

/// Whether nonces have 32 bytes, digests 48 and signatures 96.
pub open spec fn have_lengths(replies: Seq<ReplyView>) -> bool {
    forall|i: int|
        0 <= i < replies.len() ==> match #[trigger] replies[i] {
            ReplyView::Nonce(nonce) => nonce.len() == 32,
            ReplyView::Digest(digest) => digest.len() == 48,
            ReplyView::Signature(signature, _) => signature.len() == 96,
            _ => true,
        }
}

/// Every reply of a platform has these lengths.
pub proof fn law_replies_have_lengths(reply: Reply)
    ensures
        have_lengths(seq![reply@]),
{
}

proof fn lemma_lengths(replies: Seq<ReplyView>)
    requires
        have_lengths(replies),
    ensures
        sized_replies(replies),
{
    assert forall|i: int| 0 <= i < replies.len() implies sized_reply(#[trigger] replies[i]) by {
        let reply = replies[i];
        assert(match replies[i] {
            ReplyView::Nonce(nonce) => nonce.len() == 32,
            ReplyView::Digest(digest) => digest.len() == 48,
            ReplyView::Signature(signature, _) => signature.len() == 96,
            _ => true,
        });
    }
}

/// What is so in every state that an exchange can reach.
pub open spec fn is_sound(s: ExchangeView) -> bool {
    let head = s.response.transport.header_size;
    let message = s.response.unsigned_message(s.nonce, s.values);
    let signed = s.response.request.signature is Some;
    &&& s.nonce.len() == 32
    &&& s.backing.len() == s.allocated.len()
    &&& s.values.len() <= s.response.entries.len()
    &&& match s.stage {
        Stage::AppendRequest => signed && s.values.len() == 0 && s.signature.len() == 0,
        Stage::Nonce => s.values.len() == 0 && s.signature.len() == 0,
        Stage::Allocate => s.values.len() == 0 && s.signature.len() == 0
            && s.response.transport.send_len_alignment > 0,
        Stage::Value => {
            &&& s.response.transport.send_len_alignment > 0
            &&& s.values.len() < s.response.entries.len()
            &&& s.signature.len() == 0
            &&& head + 8 + record_bytes(s.response.entries, s.values).len() + 7
                + s.response.entries[s.values.len() as int].value_size <= s.allocated.len()
        },
        Stage::CheckLarge => {
            &&& s.response.transport.send_len_alignment > 0
            &&& s.values.len() == s.response.entries.len()
            &&& s.signature.len() == 0
            &&& head + message.len() <= s.allocated.len()
        },
        Stage::AppendResponse
        | Stage::FinalizeTranscript
        | Stage::HashInit
        | Stage::HashUpdate
        | Stage::HashFinish => {
            &&& signed
            &&& s.response.transport.send_len_alignment > 0
            &&& s.values.len() == s.response.entries.len()
            &&& s.signature.len() == 0
            &&& head + message.len() <= s.allocated.len()
        },
        Stage::Sign => {
            &&& signed
            &&& s.response.transport.send_len_alignment > 0
            &&& s.values.len() == s.response.entries.len()
            &&& s.signature.len() == 0
            &&& head + message.len() + 96 <= s.allocated.len()
        },
        Stage::Deliver | Stage::StartLarge => {
            &&& s.values.len() == s.response.entries.len()
            &&& s.signature.len() == (if signed {
                96int
            } else {
                0
            })
        },
        Stage::Ended => true,
    }
}

proof fn lemma_order_is_sound(s: ExchangeView)
    requires
        in_order(s),
    ensures
        is_sound(s),
{
    if s.stage is Value {
        assert(block_capacity(s.response.entries[s.values.len() as int]) == 7
            + s.response.entries[s.values.len() as int].value_size);
    }
}

/// Every state that an exchange can reach is sound: whatever the platform
/// replies, each stage finds what it needs.
pub proof fn law_reached_states_are_sound(
    connection: Connection,
    transport: Transport,
    provisioned_slots: u8,
    info: Seq<MeasurementInfo>,
    req: Seq<u8>,
    replies: Seq<ReplyView>,
)
    requires
        response_to(connection, transport, provisioned_slots, info, req) is Ok,
        have_lengths(replies),
    ensures
        ({
            let response = response_to(
                connection,
                transport,
                provisioned_slots,
                info,
                req,
            )->Ok_0;
            let s = state_after(ExchangeView::start(response, req).0, replies);
            &&& s.response == response
            &&& is_sound(s)
        }),
{
    let response = response_to(connection, transport, provisioned_slots, info, req)->Ok_0;
    let start = ExchangeView::start(response, req).0;
    law_accepted_request_is_in_order(connection, transport, provisioned_slots, info, req);
    law_start_is_in_order(response, req);
    lemma_lengths(replies);
    law_run_keeps_order(start, replies);
    lemma_order_is_sound(state_after(start, replies));
}

/// Whether a reply gives the value of a measurement: the bytes that were asked
/// for, of which the reported length is the value.
pub open spec fn gives_value(reply: ReplyView, entry: MeasurementInfo) -> bool {
    &&& reply is Value
    &&& reply->Value_0.len() == entry.value_size
    &&& reply->Value_1 is Some
    &&& reply->Value_1->0 <= entry.value_size
    &&& reply->Value_1->0 <= 65532
}

/// The value that a reply gives.
pub open spec fn value_given(reply: ReplyView) -> Seq<u8> {
    reply->Value_0.take(reply->Value_1->0 as int)
}

/// How many replies come in front of the first value: to the request that goes
/// into the transcript where a signature is asked for, the nonce, the buffer.
pub open spec fn replies_before_values(signed: bool) -> int {
    if signed {
        3
    } else {
        2
    }
}

/// The nonce that was replied.
pub open spec fn nonce_given(signed: bool, replies: Seq<ReplyView>) -> Seq<u8> {
    replies[replies_before_values(signed) - 2]->Nonce_0
}

/// The buffer that was replied.
pub open spec fn buffer_given(signed: bool, replies: Seq<ReplyView>) -> Seq<u8> {
    replies[replies_before_values(signed) - 1]->Buffer_0
}

/// The values that were replied to the first `n` measurements.
pub open spec fn values_given(signed: bool, replies: Seq<ReplyView>, n: nat) -> Seq<Seq<u8>> {
    Seq::new(n, |k: int| value_given(replies[replies_before_values(signed) + k]))
}

/// Whether the replies gave a nonce, a buffer and the values of the first `n`
/// measurements.
pub open spec fn give_values(
    signed: bool,
    replies: Seq<ReplyView>,
    entries: Seq<MeasurementInfo>,
    n: nat,
) -> bool {
    let b = replies_before_values(signed);
    &&& replies.len() >= b + n
    &&& replies[b - 2] is Nonce
    &&& replies[b - 1] is Buffer
    &&& forall|k: int| 0 <= k < n ==> gives_value(replies[b + k], #[trigger] entries[k])
}

/// Whether what an exchange holds is what the replies gave.
spec fn is_held(s: ExchangeView, replies: Seq<ReplyView>) -> bool {
    let signed = s.response.request.signature is Some;
    &&& give_values(signed, replies, s.response.entries, s.values.len())
    &&& s.nonce == nonce_given(signed, replies)
    &&& s.allocated == buffer_given(signed, replies)
    &&& s.values == values_given(signed, replies, s.values.len())
}

/// Whether what an exchange holds at its stage is what the replies gave.
spec fn is_told(s: ExchangeView, replies: Seq<ReplyView>) -> bool {
    let signed = s.response.request.signature is Some;
    let b = replies_before_values(signed);
    match s.stage {
        Stage::AppendRequest => replies.len() == 0,
        Stage::Nonce => replies.len() == b - 2,
        Stage::Allocate => {
            &&& replies.len() == b - 1
            &&& replies[b - 2] == ReplyView::Nonce(s.nonce)
        },
        Stage::Value => is_held(s, replies) && replies.len() == b + s.values.len(),
        Stage::Deliver | Stage::StartLarge => is_held(s, replies) && (signed ==> {
            &&& replies.last() is Signature
            &&& s.signature == replies.last()->Signature_0
        }),
        Stage::Ended => true,
        _ => is_held(s, replies),
    }
}

/// What is held goes on to be held.
proof fn lemma_held(s: ExchangeView, reply: ReplyView, t: ExchangeView, replies: Seq<ReplyView>)
    requires
        t.response == s.response,
        t.nonce == s.nonce,
        t.values.len() <= t.response.entries.len(),
        ({
            let b = replies_before_values(s.response.request.signature is Some);
            ||| {
                &&& s.values.len() == 0
                &&& t.values == s.values
                &&& replies.len() == b - 1
                &&& replies[b - 2] == ReplyView::Nonce(s.nonce)
                &&& reply == ReplyView::Buffer(t.allocated)
            }
            ||| {
                &&& is_held(s, replies)
                &&& t.allocated == s.allocated
                &&& t.values == s.values
            }
            ||| {
                &&& is_held(s, replies)
                &&& replies.len() == b + s.values.len()
                &&& t.allocated == s.allocated
                &&& gives_value(reply, s.response.entries[s.values.len() as int])
                &&& t.values == s.values.push(value_given(reply))
            }
        }),
    ensures
        is_held(t, replies.push(reply)),
{
    let signed = s.response.request.signature is Some;
    let b = replies_before_values(signed);
    let all = replies.push(reply);
    assert forall|k: int| 0 <= k < t.values.len() implies gives_value(
        all[b + k],
        #[trigger] t.response.entries[k],
    ) by {
        if k < s.values.len() {
            assert(gives_value(replies[b + k], s.response.entries[k]));
        }
    }
    assert forall|k: int| 0 <= k < t.values.len() implies t.values[k] == value_given(all[b + k]) by {
        if k < s.values.len() {
            assert(s.values[k] == values_given(signed, replies, s.values.len())[k]);
        }
    }
    assert(t.values =~= values_given(signed, all, t.values.len()));
}

/// What a step takes from its reply.
proof fn lemma_step_takes_reply(s: ExchangeView, reply: ReplyView)
    requires
        in_order(s),
    ensures
        ({
            let t = s.next(reply).0;
            &&& t.response == s.response
            &&& s.stage is AppendRequest ==> t.stage is Nonce || t.stage is Ended
            &&& s.stage is Nonce && !(t.stage is Ended) ==> {
                &&& t.stage is Allocate
                &&& reply == ReplyView::Nonce(t.nonce)
            }
            &&& s.stage is Allocate && !(t.stage is Ended) ==> {
                &&& reply == ReplyView::Buffer(t.allocated)
                &&& t.nonce == s.nonce
                &&& t.values == s.values
                &&& !(t.stage is AppendRequest || t.stage is Nonce || t.stage is Allocate)
            }
            &&& s.stage is Value && !(t.stage is Ended) ==> {
                &&& gives_value(reply, s.response.entries[s.values.len() as int])
                &&& t.values == s.values.push(value_given(reply))
                &&& t.nonce == s.nonce
                &&& t.allocated == s.allocated
                &&& !(t.stage is AppendRequest || t.stage is Nonce || t.stage is Allocate)
            }
            &&& !(s.stage is AppendRequest || s.stage is Nonce || s.stage is Allocate || s.stage
                is Value) && !(t.stage is Ended) ==> {
                &&& t.values == s.values
                &&& t.nonce == s.nonce
                &&& t.allocated == s.allocated
                &&& !(t.stage is AppendRequest || t.stage is Nonce || t.stage is Allocate
                    || t.stage is Value)
            }
            &&& s.response.request.signature is Some && (t.stage is Deliver || t.stage is StartLarge)
                ==> {
                &&& reply is Signature
                &&& t.signature == reply->Signature_0
            }
            &&& s.stage is Ended ==> t.stage is Ended
        }),
{
}

proof fn lemma_told(response: ResponseView, req: Seq<u8>, replies: Seq<ReplyView>)
    requires
        response.wf(),
        sized_replies(replies),
    ensures
        is_told(state_after(ExchangeView::start(response, req).0, replies), replies),
        in_order(state_after(ExchangeView::start(response, req).0, replies)),
        state_after(ExchangeView::start(response, req).0, replies).response == response,
    decreases replies.len(),
{
    let start = ExchangeView::start(response, req).0;
    law_start_is_in_order(response, req);
    law_run_keeps_order(start, replies);
    if replies.len() == 0 {
        law_runs_go_step_by_step(start, replies, ReplyView::Done);
        assert(replies =~= Seq::<ReplyView>::empty());
    } else {
        let shorter = replies.drop_last();
        let reply = replies.last();
        lemma_told(response, req, shorter);
        law_runs_go_step_by_step(start, shorter, reply);
        assert(shorter.push(reply) =~= replies);
        let s = state_after(start, shorter);
        let t = state_after(start, replies);
        lemma_step_takes_reply(s, reply);
        if !(t.stage is Ended || t.stage is Nonce || t.stage is Allocate) {
            lemma_held(s, reply, t, shorter);
        }
    }
}

/// The message that an action sends.
pub open spec fn bytes_sent(action: ActionView, head: int) -> Seq<u8> {
    match action {
        ActionView::Deliver { buf, spdm_len, .. } => buf.subrange(head, head + spdm_len),
        ActionView::StartLarge { buf, spdm_len } => buf.take(spdm_len as int),
        _ => Seq::empty(),
    }
}

/// The context that the bytes of a request carry: eight bytes behind the other
/// fields, from version 1.3 on.
pub open spec fn context_asked(version: SpdmVersion, req: Seq<u8>) -> Seq<u8> {
    if version == SpdmVersion::V13 || version == SpdmVersion::V14 {
        if req[2] % 2 == 1 {
            req.subrange(37, 45)
        } else {
            req.subrange(4, 12)
        }
    } else {
        Seq::empty()
    }
}

/// Whatever the platform replies, the message that is sent is the answer to
/// the request, byte by byte: the values are those that the measurements gave,
/// each in the block of its measurement; the nonce is the one that was made;
/// the context is the requester's; and behind it all, where a signature was
/// asked for, are the bytes that the signer left, in their order.
pub proof fn law_sent_message_answers_request(
    connection: Connection,
    transport: Transport,
    provisioned_slots: u8,
    info: Seq<MeasurementInfo>,
    req: Seq<u8>,
    replies: Seq<ReplyView>,
)
    requires
        response_to(connection, transport, provisioned_slots, info, req) is Ok,
        have_lengths(replies),
        replies.len() > 0,
        ({
            let response = response_to(
                connection,
                transport,
                provisioned_slots,
                info,
                req,
            )->Ok_0;
            let action = actions_after(ExchangeView::start(response, req).0, replies).last();
            action is Deliver || action is StartLarge
        }),
    ensures
        ({
            let response = response_to(
                connection,
                transport,
                provisioned_slots,
                info,
                req,
            )->Ok_0;
            let entries = response.entries;
            let action = actions_after(ExchangeView::start(response, req).0, replies).last();
            let message = bytes_sent(action, transport.header_size as int);
            let signed = req[2] % 2 == 1;
            let unsigned_len = message.len() - (if signed {
                96int
            } else {
                0
            });
            &&& give_values(signed, replies, entries, entries.len())
            &&& is_message(
                message.take(unsigned_len),
                connection.version,
                if req[3] == 0 {
                    info.len() as int
                } else {
                    0
                },
                if signed {
                    req[36] % 16 + 32
                } else {
                    0
                },
                entries,
                values_given(signed, replies, entries.len()),
                nonce_given(signed, replies),
                context_asked(connection.version, req),
            )
            &&& signed ==> {
                &&& replies.last() is Signature
                &&& message.skip(unsigned_len) == replies.last()->Signature_0
            }
        }),
{
    let response = response_to(connection, transport, provisioned_slots, info, req)->Ok_0;
    let start = ExchangeView::start(response, req).0;
    let s = state_after(start, replies);
    law_accepted_request_is_in_order(connection, transport, provisioned_slots, info, req);
    law_what_is_decided_of_a_response(connection, transport, provisioned_slots, info, req);
    law_fields_of_accepted_request(connection.phase, connection.version, provisioned_slots, req);
    lemma_lengths(replies);
    lemma_told(response, req, replies);
    lemma_sent_message(response, req, replies);
    law_message_bytes(response, s.nonce, s.values);
    lemma_context_asked(connection, transport, provisioned_slots, info, req);
}

/// The context that a request carries.
proof fn lemma_context_asked(
    connection: Connection,
    transport: Transport,
    provisioned_slots: u8,
    info: Seq<MeasurementInfo>,
    req: Seq<u8>,
)
    requires
        response_to(connection, transport, provisioned_slots, info, req) is Ok,
    ensures
        ({
            let response = response_to(
                connection,
                transport,
                provisioned_slots,
                info,
                req,
            )->Ok_0;
            context_asked(connection.version, req) == match response.request.context {
                Some(context) => context,
                None => Seq::empty(),
            }
        }),
{
    let response = response_to(connection, transport, provisioned_slots, info, req)->Ok_0;
    let signed = req[2] % 2 == 1;
    law_what_is_decided_of_a_response(connection, transport, provisioned_slots, info, req);
    law_fields_of_accepted_request(connection.phase, connection.version, provisioned_slots, req);
    law_accepted_request_is_in_order(connection, transport, provisioned_slots, info, req);
    law_request_length(connection.version, signed);
    if let Some(context) = response.request.context {
        assert(context_asked(connection.version, req) =~= context);
    }
}

/// The message that is sent is the whole message.
proof fn lemma_sent_message(response: ResponseView, req: Seq<u8>, replies: Seq<ReplyView>)
    requires
        response.wf(),
        sized_replies(replies),
        replies.len() > 0,
        ({
            let action = actions_after(ExchangeView::start(response, req).0, replies).last();
            action is Deliver || action is StartLarge
        }),
    ensures
        ({
            let s = state_after(ExchangeView::start(response, req).0, replies);
            let action = actions_after(ExchangeView::start(response, req).0, replies).last();
            let message = bytes_sent(action, response.transport.header_size as int);
            let unsigned = response.unsigned_message(s.nonce, s.values);
            &&& s.stage is Deliver || s.stage is StartLarge
            &&& s.values.len() == response.entries.len()
            &&& values_fit(response.entries, s.values)
            &&& s.signature.len() == (if response.request.signature is Some {
                96int
            } else {
                0
            })
            &&& message.len() == unsigned.len() + s.signature.len()
            &&& message.take(unsigned.len() as int) == unsigned
            &&& message.skip(unsigned.len() as int) == s.signature
        }),
{
    let start = ExchangeView::start(response, req).0;
    let s = state_after(start, replies);
    let action = actions_after(start, replies).last();
    let message = bytes_sent(action, response.transport.header_size as int);
    let unsigned = response.unsigned_message(s.nonce, s.values);
    if action is Deliver {
        law_delivered_message_is_whole(response, req, replies);
    } else {
        law_large_message_is_whole(response, req, replies);
    }
    assert(message == unsigned + s.signature);
    assert(message.take(unsigned.len() as int) =~= unsigned);
    assert(message.skip(unsigned.len() as int) =~= s.signature);
    lemma_sending_stage(response, req, replies);
}

proof fn lemma_sending_stage(response: ResponseView, req: Seq<u8>, replies: Seq<ReplyView>)
    requires
        response.wf(),
        sized_replies(replies),
        replies.len() > 0,
        ({
            let action = actions_after(ExchangeView::start(response, req).0, replies).last();
            action is Deliver || action is StartLarge
        }),
    ensures
        ({
            let s = state_after(ExchangeView::start(response, req).0, replies);
            s.stage is Deliver || s.stage is StartLarge
        }),
{
    let start = ExchangeView::start(response, req).0;
    let shorter = replies.drop_last();
    law_start_is_in_order(response, req);
    law_run_keeps_order(start, shorter);
    law_runs_go_step_by_step(start, shorter, replies.last());
    assert(shorter.push(replies.last()) =~= replies);
    lemma_sending_step(state_after(start, shorter), replies.last());
}

proof fn lemma_sending_step(s: ExchangeView, reply: ReplyView)
    ensures
        s.next(reply).1 is Deliver || s.next(reply).1 is StartLarge ==> s.next(reply).0.stage
            is Deliver || s.next(reply).0.stage is StartLarge,
{
}

/// Whatever the platform replies, a message that is sent in one piece lies
/// behind the transport's bytes, which are as they were allocated; zero bytes
/// follow it up to the next multiple of the alignment, and no further; and it
/// is no longer than goes in one piece. A message that is sent in chunks is
/// longer than that, and lies at the front of its buffer. The buffer is as
/// long as the one that was allocated.
pub proof fn law_sent_buffer(
    connection: Connection,
    transport: Transport,
    provisioned_slots: u8,
    info: Seq<MeasurementInfo>,
    req: Seq<u8>,
    replies: Seq<ReplyView>,
)
    requires
        response_to(connection, transport, provisioned_slots, info, req) is Ok,
        have_lengths(replies),
        replies.len() > 0,
    ensures
        ({
            let response = response_to(
                connection,
                transport,
                provisioned_slots,
                info,
                req,
            )->Ok_0;
            let head = transport.header_size as int;
            let align = transport.send_len_alignment as int;
            let allocated = buffer_given(req[2] % 2 == 1, replies);
            match actions_after(ExchangeView::start(response, req).0, replies).last() {
                ActionView::Deliver { buf, len, spdm_len } => {
                    &&& buf.len() == allocated.len()
                    &&& head + spdm_len <= len <= buf.len()
                    &&& len < head + spdm_len + align
                    &&& len as int % align == 0
                    &&& spdm_len <= transport.data_transfer_size
                    &&& forall|i: int| 0 <= i < head ==> #[trigger] buf[i] == allocated[i]
                    &&& forall|i: int| head + spdm_len <= i < len ==> #[trigger] buf[i] == 0
                },
                ActionView::StartLarge { buf, spdm_len } => {
                    &&& buf.len() == allocated.len()
                    &&& spdm_len <= buf.len()
                    &&& spdm_len > transport.data_transfer_size
                },
                _ => true,
            }
        }),
{
    let response = response_to(connection, transport, provisioned_slots, info, req)->Ok_0;
    let start = ExchangeView::start(response, req).0;
    let s = state_after(start, replies);
    let action = actions_after(start, replies).last();
    let head = transport.header_size as int;
    law_accepted_request_is_in_order(connection, transport, provisioned_slots, info, req);
    law_what_is_decided_of_a_response(connection, transport, provisioned_slots, info, req);
    law_fields_of_accepted_request(connection.phase, connection.version, provisioned_slots, req);
    lemma_lengths(replies);
    lemma_told(response, req, replies);
    if action is Deliver {
        lemma_sent_message(response, req, replies);
        law_delivered_message_is_whole(response, req, replies);
        let buf = action->Deliver_buf;
        let len = action->Deliver_len as int;
        let end = head + action->Deliver_spdm_len;
        law_round_up_is_tight_multiple(end as nat, transport.send_len_alignment as nat);
        assert forall|i: int| 0 <= i < head implies #[trigger] buf[i] == s.allocated[i] by {
            assert(buf.take(head)[i] == s.allocated.take(head)[i]);
        }
        assert forall|i: int| end <= i < len implies #[trigger] buf[i] == 0 by {
            assert(buf.subrange(end, len)[i - end] == 0);
        }
    } else if action is StartLarge {
        lemma_sent_message(response, req, replies);
        law_large_message_is_whole(response, req, replies);
    }
}

/// What a run that leads to a signature asked since the message was complete.
spec fn asked_for_signature(s: ExchangeView, replies: Seq<ReplyView>) -> Seq<ActionView> {
    let append = ActionView::AppendTranscript(s.response.unsigned_message(s.nonce, s.values));
    let init = ActionView::HashInit(signing_context_bytes(s.response.version));
    let update = ActionView::HashUpdate(s.transcript);
    let finalize = ActionView::FinalizeTranscript;
    let finish = ActionView::HashFinish;
    match s.stage {
        Stage::AppendResponse => seq![append],
        Stage::FinalizeTranscript => seq![append, finalize],
        Stage::HashInit => seq![append, finalize, init],
        Stage::HashUpdate => seq![append, finalize, init, update],
        Stage::HashFinish => seq![append, finalize, init, update, finish],
        Stage::Sign => seq![
            append,
            finalize,
            init,
            update,
            finish,
            ActionView::Sign {
                slot_id: s.response.slot_id(),
                asym_algo: s.response.asym_algo,
                digest: replies.last()->Digest_0,
            },
        ],
        _ => Seq::empty(),
    }
}

/// Whether the transcript's digest is what was replied.
spec fn is_transcript_told(s: ExchangeView, replies: Seq<ReplyView>) -> bool {
    let n = replies.len() as int;
    let told = ReplyView::Digest(s.transcript);
    match s.stage {
        Stage::HashInit => n >= 1 && replies[n - 1] == told,
        Stage::HashUpdate => n >= 2 && replies[n - 2] == told,
        Stage::HashFinish => n >= 3 && replies[n - 3] == told,
        Stage::Sign => n >= 4 && replies[n - 4] == told && replies[n - 1] is Digest,
        _ => true,
    }
}

/// The steps of a run that leads to a signature.
#[verifier::rlimit(30)]
proof fn lemma_signing_step(s: ExchangeView, reply: ReplyView, replies: Seq<ReplyView>)
    requires
        in_order(s),
        replies.len() > 0,
        replies.last() == reply,
    ensures
        ({
            let (t, action) = s.next(reply);
            let tail = asked_for_signature(t, replies);
            &&& tail.len() > 0 ==> tail == asked_for_signature(s, replies.drop_last()).push(action)
            &&& action is AppendTranscript ==> tail.len() == 1
            &&& tail.len() > 1 ==> asked_for_signature(s, replies.drop_last()).len() > 0
            &&& tail.len() == 1 ==> asked_for_signature(s, replies.drop_last()).len() == 0
                && !(s.stage is Deliver || s.stage is StartLarge || s.stage is Ended)
            &&& t.stage is HashInit ==> reply == ReplyView::Digest(t.transcript)
            &&& t.stage is HashUpdate ==> s.stage is HashInit && t.transcript == s.transcript
            &&& t.stage is HashFinish ==> s.stage is HashUpdate && t.transcript == s.transcript
            &&& t.stage is Sign ==> s.stage is HashFinish && t.transcript == s.transcript && reply
                is Digest
        }),
{
    let (t, action) = s.next(reply);
    let tail = asked_for_signature(t, replies);
    let before = asked_for_signature(s, replies.drop_last());
    if tail.len() > 0 {
        assert(tail =~= before.push(action));
    }
}

/// The signing part of a run.
#[verifier::rlimit(30)]
proof fn lemma_signing_run(response: ResponseView, req: Seq<u8>, replies: Seq<ReplyView>)
    requires
        response.wf(),
        sized_replies(replies),
    ensures
        ({
            let start = ExchangeView::start(response, req).0;
            let s = state_after(start, replies);
            let actions = actions_after(start, replies);
            let tail = asked_for_signature(s, replies);
            &&& actions.len() == replies.len()
            &&& is_transcript_told(s, replies)
            &&& !(s.stage is Deliver || s.stage is StartLarge || s.stage is Ended) ==> {
                &&& actions.len() >= tail.len()
                &&& actions.skip(actions.len() - tail.len()) == tail
                &&& forall|i: int|
                    0 <= i < actions.len() - tail.len() ==> !(#[trigger] actions[i]
                        is AppendTranscript)
            }
        }),
    decreases replies.len(),
{
    let start = ExchangeView::start(response, req).0;
    let s = state_after(start, replies);
    let actions = actions_after(start, replies);
    let tail = asked_for_signature(s, replies);
    law_start_is_in_order(response, req);
    if replies.len() == 0 {
        law_runs_go_step_by_step(start, replies, ReplyView::Done);
        assert(replies =~= Seq::<ReplyView>::empty());
        assert(actions.skip(0) =~= tail);
    } else {
        let shorter = replies.drop_last();
        let reply = replies.last();
        lemma_signing_run(response, req, shorter);
        law_run_keeps_order(start, shorter);
        law_runs_go_step_by_step(start, shorter, reply);
        assert(shorter.push(reply) =~= replies);
        let before = state_after(start, shorter);
        lemma_signing_step(before, reply, replies);
        lemma_step_leaves_sending(before, reply);
        let asked = actions_after(start, shorter);
        let old_tail = asked_for_signature(before, shorter);
        if !(s.stage is Deliver || s.stage is StartLarge || s.stage is Ended) {
            if tail.len() > 0 {
                assert(actions.skip(actions.len() - tail.len()) =~= asked.skip(
                    asked.len() - old_tail.len(),
                ).push(actions.last()));
            } else {
                assert(actions.skip(actions.len() as int) =~= tail);
            }
            assert forall|i: int| 0 <= i < actions.len() - tail.len() implies !(#[trigger] actions[i]
                is AppendTranscript) by {
                if i < asked.len() {
                    assert(actions[i] == asked[i]);
                }
            }
        }
    }
}

/// An exchange does not come back from sending or signing to reading.
proof fn lemma_step_leaves_sending(s: ExchangeView, reply: ReplyView)
    requires
        in_order(s),
    ensures
        ({
            let t = s.next(reply).0;
            &&& s.stage is Deliver || s.stage is StartLarge || s.stage is Ended ==> t.stage is Ended
            &&& s.stage is AppendResponse || s.stage is FinalizeTranscript || s.stage is HashInit
                || s.stage is HashUpdate || s.stage is HashFinish || s.stage is Sign ==> !(t.stage
                is AppendRequest || t.stage is Nonce || t.stage is Allocate || t.stage is Value
                || t.stage is CheckLarge)
            &&& s.response.request.signature is Some && (t.stage is Deliver || t.stage is StartLarge)
                ==> s.stage is Sign && t.nonce == s.nonce && t.values == s.values
        }),
{
}

/// Whatever the platform replies, what is signed is what is sent. The fields
/// of the request go into the transcript, and then the message that is sent,
/// without its signature, and nothing else; the transcript is finalized; the
/// signing context of the version and the digest that the transcript gave are
/// digested, in this order; and that digest is signed with the slot of the
/// request and the algorithm of the connection.
pub proof fn law_signed_message_is_the_sent_one(
    connection: Connection,
    transport: Transport,
    provisioned_slots: u8,
    info: Seq<MeasurementInfo>,
    req: Seq<u8>,
    replies: Seq<ReplyView>,
)
    requires
        response_to(connection, transport, provisioned_slots, info, req) is Ok,
        req[2] % 2 == 1,
        have_lengths(replies),
        replies.len() > 0,
        ({
            let response = response_to(
                connection,
                transport,
                provisioned_slots,
                info,
                req,
            )->Ok_0;
            let action = actions_after(ExchangeView::start(response, req).0, replies).last();
            action is Deliver || action is StartLarge
        }),
    ensures
        ({
            let response = response_to(
                connection,
                transport,
                provisioned_slots,
                info,
                req,
            )->Ok_0;
            let (start, first) = ExchangeView::start(response, req);
            let actions = actions_after(start, replies);
            let n = replies.len() as int;
            let message = bytes_sent(actions.last(), transport.header_size as int);
            &&& n >= 7
            &&& actions.len() == n
            &&& first == ActionView::AppendTranscript(
                req.take(fields_len(connection.version, true)),
            )
            &&& actions[n - 7] == ActionView::AppendTranscript(message.take(message.len() - 96))
            &&& forall|i: int|
                0 <= i < n && #[trigger] actions[i] is AppendTranscript ==> i == n - 7
            &&& actions[n - 6] == ActionView::FinalizeTranscript
            &&& replies[n - 5] is Digest
            &&& actions[n - 5] == ActionView::HashInit(signing_context_bytes(connection.version))
            &&& actions[n - 4] == ActionView::HashUpdate(replies[n - 5]->Digest_0)
            &&& actions[n - 3] == ActionView::HashFinish
            &&& replies[n - 2] is Digest
            &&& actions[n - 2] == ActionView::Sign {
                slot_id: req[36] % 16,
                asym_algo: connection.asym_algo,
                digest: replies[n - 2]->Digest_0,
            }
        }),
{
    let response = response_to(connection, transport, provisioned_slots, info, req)->Ok_0;
    let (start, first) = ExchangeView::start(response, req);
    let actions = actions_after(start, replies);
    let n = replies.len() as int;
    let shorter = replies.drop_last();
    let before = state_after(start, shorter);
    let asked = actions_after(start, shorter);
    law_accepted_request_is_in_order(connection, transport, provisioned_slots, info, req);
    law_what_is_decided_of_a_response(connection, transport, provisioned_slots, info, req);
    law_fields_of_accepted_request(connection.phase, connection.version, provisioned_slots, req);
    law_request_length(connection.version, true);
    lemma_lengths(replies);
    lemma_told(response, req, replies);
    lemma_sent_message(response, req, replies);
    lemma_told(response, req, shorter);
    law_runs_go_step_by_step(start, shorter, replies.last());
    assert(shorter.push(replies.last()) =~= replies);
    lemma_step_leaves_sending(before, replies.last());
    lemma_signing_run(response, req, shorter);
    let tail = asked_for_signature(before, shorter);
    assert(forall|j: int| 0 <= j < 6 ==> #[trigger] tail[j] == asked[n - 7 + j]) by {
        assert forall|j: int| 0 <= j < 6 implies #[trigger] tail[j] == asked[n - 7 + j] by {
            assert(asked.skip(asked.len() - 6)[j] == asked[n - 7 + j]);
        }
    }
    assert(tail[0] == asked[n - 7] && tail[1] == asked[n - 6] && tail[2] == asked[n - 5] && tail[3]
        == asked[n - 4] && tail[4] == asked[n - 3] && tail[5] == asked[n - 2]);
    assert forall|i: int| 0 <= i < n && #[trigger] actions[i] is AppendTranscript implies i == n
        - 7 by {
        if i < n - 1 {
            assert(actions[i] == asked[i]);
        }
    }
}

} // verus!
