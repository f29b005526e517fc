//! What holds of whole exchanges, whatever the platform replies.
use crate::block::{
    accepted_len, block_capacity, lemma_record_capacity_grows, lemma_record_len, record_bytes,
    value_fits, values_fit,
};
use crate::buffer::{
    law_round_up_is_least, law_round_up_is_tight_multiple, round_up, splice, zeros,
};
use crate::error::SpdmError;
use crate::exchange::{lemma_message_len, ActionView, ExchangeView, Reply, ReplyView, Stage};
use crate::request::request_len;
use crate::response::ResponseView;
use crate::signing::signing_context_bytes;
use crate::spdm::{
    ECC_P384_SIGNATURE_SIZE, MEASUREMENTS_FIXED_BODY_SIZE, MEAS_BLOCK_METADATA_SIZE, MSG_HDR_SIZE,
    SHA384_HASH_SIZE, SPDM_NONCE_LEN,
};
use vstd::prelude::*;

verus! {

/// What an exchange comes to after some replies.
#[verifier::opaque]
pub open spec fn state_after(s: ExchangeView, replies: Seq<ReplyView>) -> ExchangeView
    decreases replies.len(),
{
    if replies.len() == 0 {
        s
    } else {
        state_after(s, replies.drop_last()).next(replies.last()).0
    }
}

/// What an exchange asks, one action for each of some replies.
#[verifier::opaque]
pub open spec fn actions_after(s: ExchangeView, replies: Seq<ReplyView>) -> Seq<ActionView>
    decreases replies.len(),
{
    if replies.len() == 0 {
        Seq::empty()
    } else {
        actions_after(s, replies.drop_last()).push(
            state_after(s, replies.drop_last()).next(replies.last()).1,
        )
    }
}

/// Whether nonces, digests and signatures have their lengths.
pub open spec fn sized_reply(reply: ReplyView) -> bool {
    match reply {
        ReplyView::Nonce(nonce) => nonce.len() == SPDM_NONCE_LEN,
        ReplyView::Digest(digest) => digest.len() == SHA384_HASH_SIZE,
        ReplyView::Signature(signature, _) => signature.len() == ECC_P384_SIGNATURE_SIZE,
        _ => true,
    }
}

/// Whether all replies have their lengths.
pub open spec fn sized_replies(replies: Seq<ReplyView>) -> bool {
    forall|i: int| 0 <= i < replies.len() ==> sized_reply(#[trigger] replies[i])
}

/// Nonces, digests and signatures that a platform replies with have their
/// lengths.
pub proof fn law_replies_are_sized(reply: Reply)
    ensures
        sized_reply(reply@),
{
}

/// Whether the buffer under the message has its length and the transport's
/// bytes as they were allocated.
pub open spec fn keeps_head(s: ExchangeView) -> bool {
    &&& s.backing.len() == s.allocated.len()
    &&& forall|i: int|
        0 <= i < s.head() && i < s.allocated.len() ==> #[trigger] s.backing[i] == s.allocated[i]
}

/// What every exchange keeps.
pub open spec fn in_order(s: ExchangeView) -> bool {
    &&& s.response.wf()
    &&& keeps_head(s)
    &&& s.nonce.len() == SPDM_NONCE_LEN
    &&& values_fit(s.response.entries, s.values)
    &&& !s.response.signed() ==> !(s.stage is AppendRequest || s.stage is AppendResponse
        || s.stage is FinalizeTranscript || s.stage is HashInit || s.stage is HashUpdate
        || s.stage is HashFinish || s.stage is Sign)
    &&& match s.stage {
        Stage::AppendRequest | Stage::Nonce | Stage::Allocate => s.values.len() == 0
            && s.signature.len() == 0,
        Stage::Value => s.values.len() < s.response.entries.len() && s.signature.len() == 0
            && s.block_at() + block_capacity(s.response.entries[s.values.len() as int])
            <= s.allocated.len(),
        Stage::CheckLarge
        | Stage::AppendResponse
        | Stage::FinalizeTranscript
        | Stage::HashInit
        | Stage::HashUpdate
        | Stage::HashFinish
        | Stage::Sign => s.values.len() == s.response.entries.len() && s.signature.len() == 0
            && s.head() + s.unsigned_message().len() <= s.allocated.len() && (s.stage is Sign
            ==> s.head() + s.final_len() <= s.allocated.len()),
        Stage::Deliver | Stage::StartLarge => s.values.len() == s.response.entries.len()
            && s.signature.len() == s.response.signature_len() && s.head() + s.message().len()
            <= s.allocated.len(),
        Stage::Ended => true,
    }
    &&& s.stage is CheckLarge || s.stage is StartLarge ==> !s.goes_in_one_piece()
    &&& s.stage is Deliver ==> s.goes_in_one_piece()
    &&& !(s.stage is AppendRequest || s.stage is Nonce || s.stage is Ended)
        ==> s.needed_capacity() is Some
}

/// An exchange begins in order.
pub proof fn law_start_is_in_order(response: ResponseView, req: Seq<u8>)
    requires
        response.wf(),
    ensures
        in_order(ExchangeView::start(response, req).0),
{
}

/// A reply leaves an exchange in order.
#[verifier::rlimit(30)]
pub proof fn law_next_keeps_order(s: ExchangeView, reply: ReplyView)
    requires
        in_order(s),
        sized_reply(reply),
    ensures
        in_order(s.next(reply).0),
        s.next(reply).0.response == s.response,
{
    if s.stage is Value && reply is Value {
        let entry = s.response.entries[s.values.len() as int];
        let bytes = reply->Value_0;
        let accepted = accepted_len(entry, reply->Value_1);
        if accepted is Some && bytes.len() == entry.value_size {
            let at = s.block_at() + MEAS_BLOCK_METADATA_SIZE;
            let t = ExchangeView {
                backing: splice(s.backing, at, bytes),
                values: s.values.push(bytes.take(accepted->0 as int)),
                ..s
            };
            assert forall|i: int| 0 <= i < t.values.len() implies value_fits(
                t.response.entries[i],
                #[trigger] t.values[i].len(),
            ) by {
                if i < s.values.len() {
                    assert(t.values[i] == s.values[i]);
                }
            }
            assert(keeps_head(t));
        }
    }
}

/// Any replies leave an exchange in order, and do not change what was decided
/// when the request was accepted.
pub proof fn law_run_keeps_order(s: ExchangeView, replies: Seq<ReplyView>)
    requires
        in_order(s),
        sized_replies(replies),
    ensures
        in_order(state_after(s, replies)),
        state_after(s, replies).response == s.response,
    decreases replies.len(),
{
    reveal(state_after);
    if replies.len() > 0 {
        law_run_keeps_order(s, replies.drop_last());
        law_next_keeps_order(state_after(s, replies.drop_last()), replies.last());
    }
}

/// What a platform contributes to an exchange in which nothing fails.
pub struct Contribution {
    /// The responder's nonce.
    pub nonce: Seq<u8>,
    /// The response buffer.
    pub allocated: Seq<u8>,
    /// For each measurement, what it left in its buffer, and the length that
    /// it reported.
    pub reads: Seq<(Seq<u8>, nat)>,
    /// The digest of the transcript.
    pub transcript: Seq<u8>,
    /// The digest that is signed.
    pub digest: Seq<u8>,
    /// The signature.
    pub signature: Seq<u8>,
}

impl Contribution {
    /// The values of the measurements.
    pub open spec fn values(self) -> Seq<Seq<u8>> {
        Seq::new(self.reads.len(), |i: int| self.reads[i].0.take(self.reads[i].1 as int))
    }

    /// The response buffer under the message when `k` values were read: each
    /// measurement leaves its bytes where its value may go.
    pub open spec fn backing(self, response: ResponseView, k: nat) -> Seq<u8>
        decreases k,
    {
        if k == 0 {
            self.allocated
        } else {
            let i = k - 1;
            let record = record_bytes(response.entries, self.values().take(i));
            splice(
                self.backing(response, i as nat),
                response.transport.header_size + MSG_HDR_SIZE + MEASUREMENTS_FIXED_BODY_SIZE
                    + record.len() + MEAS_BLOCK_METADATA_SIZE,
                self.reads[i].0,
            )
        }
    }

    /// The exchange with its whole message.
    pub open spec fn outcome(self, response: ResponseView) -> ExchangeView {
        ExchangeView {
            response,
            stage: Stage::Ended,
            nonce: self.nonce,
            allocated: self.allocated,
            backing: self.backing(response, response.entries.len()),
            values: self.values(),
            transcript: if response.signed() {
                self.transcript
            } else {
                zeros(SHA384_HASH_SIZE as nat)
            },
            signature: if response.signed() {
                self.signature
            } else {
                Seq::empty()
            },
        }
    }

    /// Whether the platform does what it is asked: the nonce and the
    /// signature have their lengths, the buffer is as long as was asked, and
    /// each measurement reports a value that its block can carry.
    pub open spec fn suits(self, response: ResponseView) -> bool {
        &&& self.nonce.len() == SPDM_NONCE_LEN
        &&& self.signature.len() == ECC_P384_SIGNATURE_SIZE
        &&& self.outcome(response).needed_capacity() matches Some(needed)
        &&& needed <= self.allocated.len()
        &&& self.reads.len() == response.entries.len()
        &&& forall|i: int|
            0 <= i < self.reads.len() ==> value_fits(
                response.entries[i],
                (#[trigger] self.reads[i]).1,
            ) && self.reads[i].0.len() == response.entries[i].value_size
    }

    /// The replies about values.
    pub open spec fn value_replies(self) -> Seq<ReplyView> {
        Seq::new(self.reads.len(), |i: int| ReplyView::Value(self.reads[i].0, Some(self.reads[i].1)))
    }

    /// The replies up to a buffer.
    pub open spec fn first_replies(self, response: ResponseView) -> Seq<ReplyView> {
        let begun = if response.signed() {
            seq![ReplyView::Done]
        } else {
            Seq::empty()
        };
        begun + seq![ReplyView::Nonce(self.nonce), ReplyView::Buffer(self.allocated)]
    }

    /// The replies about whether the message can go in chunks.
    pub open spec fn check_replies(self, response: ResponseView) -> Seq<ReplyView> {
        if self.outcome(response).goes_in_one_piece() {
            Seq::empty()
        } else {
            seq![ReplyView::Done]
        }
    }

    /// The replies about the signature.
    pub open spec fn signing_replies(self, response: ResponseView) -> Seq<ReplyView> {
        if response.signed() {
            seq![
                ReplyView::Done,
                ReplyView::Digest(self.transcript),
                ReplyView::Done,
                ReplyView::Done,
                ReplyView::Digest(self.digest),
                ReplyView::Signature(self.signature, ECC_P384_SIGNATURE_SIZE as nat),
            ]
        } else {
            Seq::empty()
        }
    }

    /// The replies up to the whole message.
    pub open spec fn replies(self, response: ResponseView) -> Seq<ReplyView> {
        self.first_replies(response) + self.value_replies() + (self.check_replies(response)
            + self.signing_replies(response))
    }

    /// The last thing that is asked: to send the whole message.
    pub open spec fn sending(self, response: ResponseView) -> ActionView {
        let s = self.outcome(response);
        if s.goes_in_one_piece() {
            ActionView::Deliver {
                buf: s.packet(),
                len: s.padded_len(),
                spdm_len: s.message().len(),
            }
        } else {
            ActionView::StartLarge { buf: s.large_buffer(), spdm_len: s.message().len() }
        }
    }

    /// The exchange when it was asked to send the whole message.
    pub open spec fn sent(self, response: ResponseView) -> ExchangeView {
        let s = self.outcome(response);
        ExchangeView {
            stage: if s.goes_in_one_piece() {
                Stage::Deliver
            } else {
                Stage::StartLarge
            },
            ..s
        }
    }

    /// What is asked in front of the values.
    pub open spec fn first_actions(self, response: ResponseView, req: Seq<u8>) -> Seq<ActionView> {
        let begun = if response.signed() {
            seq![
                ActionView::AppendTranscript(
                    req.take(request_len(response.version, true) as int),
                ),
            ]
        } else {
            Seq::empty()
        };
        begun + seq![
            ActionView::GenerateNonce,
            ActionView::Allocate(self.outcome(response).needed_capacity()->0),
        ]
    }

    /// What is asked for the values.
    pub open spec fn value_actions(self, response: ResponseView) -> Seq<ActionView> {
        Seq::new(
            response.entries.len(),
            |i: int|
                ActionView::ReadValue {
                    index: response.entries[i].index,
                    nonce: response.requester_nonce(),
                    size: response.entries[i].value_size,
                },
        )
    }

    /// What is asked where the message is too long for one piece.
    pub open spec fn check_actions(self, response: ResponseView) -> Seq<ActionView> {
        let s = self.outcome(response);
        if s.goes_in_one_piece() {
            Seq::empty()
        } else {
            seq![
                ActionView::ValidateLarge {
                    spdm_len: s.message().len(),
                    capacity: self.allocated.len(),
                },
            ]
        }
    }

    /// What is asked where the response is to be signed.
    pub open spec fn signing_actions(self, response: ResponseView) -> Seq<ActionView> {
        if response.signed() {
            seq![
                ActionView::AppendTranscript(self.outcome(response).unsigned_message()),
                ActionView::FinalizeTranscript,
                ActionView::HashInit(signing_context_bytes(response.version)),
                ActionView::HashUpdate(self.transcript),
                ActionView::HashFinish,
                ActionView::Sign {
                    slot_id: response.slot_id(),
                    asym_algo: response.asym_algo,
                    digest: self.digest,
                },
            ]
        } else {
            Seq::empty()
        }
    }

    /// All that is asked of the platform, in order.
    pub open spec fn actions(self, response: ResponseView, req: Seq<u8>) -> Seq<ActionView> {
        self.first_actions(response, req) + self.value_actions(response) + (self.check_actions(
            response,
        ) + (self.signing_actions(response) + seq![self.sending(response)]))
    }

    /// The exchange after `k` values, before the machine turns to the next.
    spec fn filled(self, response: ResponseView, k: int) -> ExchangeView {
        ExchangeView {
            response,
            stage: Stage::Value,
            nonce: self.nonce,
            allocated: self.allocated,
            backing: self.backing(response, k as nat),
            values: self.values().take(k),
            transcript: zeros(SHA384_HASH_SIZE as nat),
            signature: Seq::empty(),
        }
    }
}

/// Taking replies one after the other is taking them all.
pub proof fn law_runs_compose(s: ExchangeView, first: Seq<ReplyView>, second: Seq<ReplyView>)
    ensures
        state_after(s, first + second) == state_after(state_after(s, first), second),
        actions_after(s, first + second) == actions_after(s, first) + actions_after(
            state_after(s, first),
            second,
        ),
    decreases second.len(),
{
    reveal(state_after);
    reveal(actions_after);
    if second.len() == 0 {
        assert(first + second =~= first);
        assert(actions_after(s, first) + Seq::<ActionView>::empty() =~= actions_after(s, first));
    } else {
        let all = first + second;
        assert(all.drop_last() =~= first + second.drop_last());
        assert(all.last() == second.last());
        law_runs_compose(s, first, second.drop_last());
        assert(actions_after(s, all) =~= actions_after(s, first) + actions_after(
            state_after(s, first),
            second,
        ));
    }
}

/// No reply is no step.
proof fn lemma_no_reply(s: ExchangeView)
    ensures
        state_after(s, Seq::empty()) == s,
        actions_after(s, Seq::empty()) == Seq::<ActionView>::empty(),
{
    reveal(state_after);
    reveal(actions_after);
}

/// One reply is one step.
proof fn lemma_one_reply(s: ExchangeView, reply: ReplyView)
    ensures
        state_after(s, seq![reply]) == s.next(reply).0,
        actions_after(s, seq![reply]) == seq![s.next(reply).1],
{
    reveal(state_after);
    reveal(actions_after);
    let one = seq![reply];
    assert(one.drop_last() =~= Seq::<ReplyView>::empty());
    assert(state_after(s, one.drop_last()) == s);
    assert(actions_after(s, one.drop_last()) == Seq::<ActionView>::empty());
    assert(actions_after(s, one) =~= seq![s.next(reply).1]);
}

/// Two replies are two steps.
proof fn lemma_two_replies(
    s: ExchangeView,
    a: ReplyView,
    t: ExchangeView,
    b: ReplyView,
    u: ExchangeView,
)
    requires
        s.next(a).0 == t,
        t.next(b).0 == u,
    ensures
        state_after(s, seq![a, b]) == u,
        actions_after(s, seq![a, b]) == seq![s.next(a).1, t.next(b).1],
{
    lemma_one_reply(s, a);
    lemma_one_reply(t, b);
    law_runs_compose(s, seq![a], seq![b]);
    assert(seq![a] + seq![b] =~= seq![a, b]);
    assert(actions_after(s, seq![a, b]) =~= seq![s.next(a).1, t.next(b).1]);
}

/// With a buffer as long as was asked, the block of each measurement finds
/// room.
proof fn lemma_room_for_value(w: Contribution, response: ResponseView, k: int)
    requires
        response.wf(),
        w.suits(response),
        0 <= k <= response.entries.len(),
    ensures
        values_fit(response.entries, w.values().take(k)),
        w.filled(response, k).head() + response.max_message_len() <= w.allocated.len(),
        k < response.entries.len() ==> w.filled(response, k).read_on() == (
            w.filled(response, k),
            ActionView::ReadValue {
                index: response.entries[k].index,
                nonce: response.requester_nonce(),
                size: response.entries[k].value_size,
            },
        ),
{
    let s = w.filled(response, k);
    let entries = response.entries;
    assert forall|i: int| 0 <= i < k implies value_fits(
        entries[i],
        #[trigger] w.values().take(k)[i].len(),
    ) by {
        assert(value_fits(entries[i], w.reads[i].1));
    }
    law_round_up_is_tight_multiple(
        s.head() + response.max_message_len(),
        response.transport.send_len_alignment as nat,
    );
    if k < entries.len() {
        lemma_record_len(entries, s.values);
        lemma_record_capacity_grows(entries, k + 1);
        assert(entries.take(k + 1).drop_last() =~= entries.take(k));
    }
}

/// Each value leads to the next measurement.
proof fn lemma_values_are_read(w: Contribution, response: ResponseView, k: int)
    requires
        response.wf(),
        w.suits(response),
        0 <= k <= response.entries.len(),
    ensures
        state_after(w.filled(response, 0).read_on().0, w.value_replies().take(k)) == w.filled(
            response,
            k,
        ).read_on().0,
        actions_after(w.filled(response, 0).read_on().0, w.value_replies().take(k)) == Seq::new(
            k as nat,
            |i: int| w.filled(response, i + 1).read_on().1,
        ),
    decreases k,
{
    reveal(state_after);
    reveal(actions_after);
    let begun = w.filled(response, 0).read_on().0;
    let replies = w.value_replies().take(k);
    let actions = Seq::new(k as nat, |i: int| w.filled(response, i + 1).read_on().1);
    if k == 0 {
        assert(replies =~= Seq::<ReplyView>::empty());
        assert(actions =~= Seq::<ActionView>::empty());
    } else {
        lemma_values_are_read(w, response, k - 1);
        lemma_room_for_value(w, response, k - 1);
        assert(replies.drop_last() =~= w.value_replies().take(k - 1));
        let s = w.filled(response, k - 1);
        let read = w.reads[k - 1];
        assert(replies.last() == ReplyView::Value(read.0, Some(read.1)));
        assert(value_fits(response.entries[k - 1], w.reads[k - 1].1));
        assert(s.values.len() == k - 1);
        assert(s.values.push(read.0.take(read.1 as int)) =~= w.values().take(k));
        assert(s.next(replies.last()) == w.filled(response, k).read_on());
        assert(actions_after(begun, replies) =~= actions);
    }
}

/// The exchange when its message is complete but for a signature.
spec fn unsigned_outcome(w: Contribution, response: ResponseView, stage: Stage) -> ExchangeView {
    ExchangeView {
        stage,
        transcript: zeros(SHA384_HASH_SIZE as nat),
        signature: Seq::empty(),
        ..w.outcome(response)
    }
}

/// A whole message is sent.
proof fn lemma_whole_message_is_sent(w: Contribution, response: ResponseView, stage: Stage)
    requires
        response.wf(),
        w.suits(response),
    ensures
        (ExchangeView { stage, ..w.outcome(response) }).send() == (
            w.sent(response),
            w.sending(response),
        ),
        w.outcome(response).message().len() == w.outcome(response).final_len(),
        w.outcome(response).head() + w.outcome(response).message().len() <= w.allocated.len(),
{
    let n = response.entries.len() as int;
    let s = w.outcome(response);
    let align = response.transport.send_len_alignment as nat;
    lemma_room_for_value(w, response, n);
    assert(w.values().take(n) =~= w.values());
    lemma_message_len(response, w.nonce, w.values());
    let longest = s.head() + response.max_message_len();
    law_round_up_is_tight_multiple(longest, align);
    law_round_up_is_least(s.head() + s.message().len(), align, round_up(longest, align));
}

/// The exchange while its message is signed.
spec fn signing_state(w: Contribution, response: ResponseView, stage: Stage) -> ExchangeView {
    ExchangeView { stage, transcript: w.transcript, ..unsigned_outcome(w, response, stage) }
}

/// The digest of the transcript is taken.
proof fn lemma_transcript_is_digested(w: Contribution, response: ResponseView)
    ensures
        ({
            let t = unsigned_outcome(w, response, Stage::AppendResponse);
            let replies = seq![ReplyView::Done, ReplyView::Digest(w.transcript)];
            &&& state_after(t, replies) == signing_state(w, response, Stage::HashInit)
            &&& actions_after(t, replies) == seq![
                ActionView::FinalizeTranscript,
                ActionView::HashInit(signing_context_bytes(response.version)),
            ]
        }),
{
    let t = unsigned_outcome(w, response, Stage::AppendResponse);
    let finalized = unsigned_outcome(w, response, Stage::FinalizeTranscript);
    let digested = signing_state(w, response, Stage::HashInit);
    lemma_two_replies(t, ReplyView::Done, finalized, ReplyView::Digest(w.transcript), digested);
}

/// The digest to be signed is fed.
proof fn lemma_digest_is_fed(w: Contribution, response: ResponseView)
    ensures
        ({
            let t = signing_state(w, response, Stage::HashInit);
            let replies = seq![ReplyView::Done, ReplyView::Done];
            &&& state_after(t, replies) == signing_state(w, response, Stage::HashFinish)
            &&& actions_after(t, replies) == seq![
                ActionView::HashUpdate(w.transcript),
                ActionView::HashFinish,
            ]
        }),
{
    let t = signing_state(w, response, Stage::HashInit);
    let updated = signing_state(w, response, Stage::HashUpdate);
    let fed = signing_state(w, response, Stage::HashFinish);
    lemma_two_replies(t, ReplyView::Done, updated, ReplyView::Done, fed);
}

/// The digest is signed, and the whole message sent.
proof fn lemma_signature_is_sent(w: Contribution, response: ResponseView)
    requires
        response.wf(),
        response.signed(),
        w.suits(response),
    ensures
        ({
            let t = signing_state(w, response, Stage::HashFinish);
            let replies = seq![
                ReplyView::Digest(w.digest),
                ReplyView::Signature(w.signature, ECC_P384_SIGNATURE_SIZE as nat),
            ];
            &&& state_after(t, replies) == w.sent(response)
            &&& actions_after(t, replies) == seq![
                ActionView::Sign {
                    slot_id: response.slot_id(),
                    asym_algo: response.asym_algo,
                    digest: w.digest,
                },
                w.sending(response),
            ]
        }),
{
    let s = w.outcome(response);
    let t = signing_state(w, response, Stage::HashFinish);
    let signing = signing_state(w, response, Stage::Sign);
    let r_digest = ReplyView::Digest(w.digest);
    let r_signature = ReplyView::Signature(w.signature, ECC_P384_SIGNATURE_SIZE as nat);
    lemma_whole_message_is_sent(w, response, Stage::Sign);
    assert(t.unsigned_message() == s.unsigned_message());
    assert(t.next(r_digest) == t.sign(w.digest));
    assert(t.next(r_digest).0 == signing);
    assert(signing.next(r_signature) == (ExchangeView { stage: Stage::Sign, ..s }).send());
    lemma_two_replies(t, r_digest, signing, r_signature, w.sent(response));
}

/// A run in three parts.
proof fn lemma_three_runs(
    s: ExchangeView,
    r1: Seq<ReplyView>,
    t: ExchangeView,
    r2: Seq<ReplyView>,
    u: ExchangeView,
    r3: Seq<ReplyView>,
)
    requires
        state_after(s, r1) == t,
        state_after(t, r2) == u,
    ensures
        state_after(s, r1 + r2 + r3) == state_after(u, r3),
        actions_after(s, r1 + r2 + r3) == actions_after(s, r1) + actions_after(t, r2)
            + actions_after(u, r3),
{
    law_runs_compose(s, r1, r2);
    law_runs_compose(s, r1 + r2, r3);
}

/// The signature of a message that is complete but for it.
proof fn lemma_message_is_signed(w: Contribution, response: ResponseView)
    requires
        response.wf(),
        response.signed(),
        w.suits(response),
    ensures
        ({
            let t = unsigned_outcome(w, response, Stage::AppendResponse);
            &&& state_after(t, w.signing_replies(response)) == w.sent(response)
            &&& seq![ActionView::AppendTranscript(t.unsigned_message())] + actions_after(
                t,
                w.signing_replies(response),
            ) == w.signing_actions(response) + seq![w.sending(response)]
        }),
{
    let t = unsigned_outcome(w, response, Stage::AppendResponse);
    let r1 = seq![ReplyView::Done, ReplyView::Digest(w.transcript)];
    let r2 = seq![ReplyView::Done, ReplyView::Done];
    let r3 = seq![
        ReplyView::Digest(w.digest),
        ReplyView::Signature(w.signature, ECC_P384_SIGNATURE_SIZE as nat),
    ];
    let digested = signing_state(w, response, Stage::HashInit);
    let fed = signing_state(w, response, Stage::HashFinish);
    lemma_transcript_is_digested(w, response);
    lemma_digest_is_fed(w, response);
    lemma_signature_is_sent(w, response);
    lemma_three_runs(t, r1, digested, r2, fed, r3);
    assert(w.signing_replies(response) =~= r1 + r2 + r3);
    assert(t.unsigned_message() == w.outcome(response).unsigned_message());
    assert(seq![ActionView::AppendTranscript(t.unsigned_message())] + actions_after(
        t,
        w.signing_replies(response),
    ) =~= w.signing_actions(response) + seq![w.sending(response)]);
}

/// A message that is complete but for a signature is signed where that was
/// asked for, and sent.
proof fn lemma_complete_message_goes_out(w: Contribution, response: ResponseView, stage: Stage)
    requires
        response.wf(),
        w.suits(response),
    ensures
        ({
            let begun = unsigned_outcome(w, response, stage).sign_or_send();
            &&& state_after(begun.0, w.signing_replies(response)) == w.sent(response)
            &&& seq![begun.1] + actions_after(begun.0, w.signing_replies(response))
                == w.signing_actions(response) + seq![w.sending(response)]
        }),
{
    let t = unsigned_outcome(w, response, stage);
    if response.signed() {
        lemma_message_is_signed(w, response);
    } else {
        lemma_whole_message_is_sent(w, response, stage);
        assert(t == (ExchangeView { stage, ..w.outcome(response) }));
        let sent = t.sign_or_send();
        lemma_no_reply(sent.0);
        assert(seq![sent.1] + Seq::<ActionView>::empty() =~= w.signing_actions(response)
            + seq![w.sending(response)]);
    }
}

/// Up to a buffer.
proof fn lemma_exchange_opens(response: ResponseView, req: Seq<u8>, w: Contribution)
    requires
        response.wf(),
        w.suits(response),
    ensures
        ({
            let (s, first) = ExchangeView::start(response, req);
            let begun = w.filled(response, 0).read_on();
            &&& state_after(s, w.first_replies(response)) == begun.0
            &&& seq![first] + actions_after(s, w.first_replies(response)) == w.first_actions(
                response,
                req,
            ) + seq![begun.1]
        }),
{
    let (s, first) = ExchangeView::start(response, req);
    let ready = ExchangeView { stage: Stage::Nonce, ..s };
    let fresh = ExchangeView { stage: Stage::Allocate, nonce: w.nonce, ..s };
    let signed: Seq<ReplyView> = if response.signed() {
        seq![ReplyView::Done]
    } else {
        Seq::empty()
    };
    let r_nonce = ReplyView::Nonce(w.nonce);
    let r_buffer = ReplyView::Buffer(w.allocated);
    let begun = w.filled(response, 0).read_on();
    let needed = w.outcome(response).needed_capacity()->0;
    lemma_no_reply(s);
    lemma_one_reply(s, ReplyView::Done);
    assert(state_after(s, signed) == ready);
    lemma_one_reply(ready, r_nonce);
    assert(ready.next(r_nonce) == (fresh, ActionView::Allocate(needed)));
    lemma_one_reply(fresh, r_buffer);
    lemma_room_for_value(w, response, 0);
    assert(w.filled(response, 0).values =~= Seq::<Seq<u8>>::empty());
    assert(fresh.next(r_buffer) == w.filled(response, 0).begin());
    assert(fresh.next(r_buffer) == begun);
    law_runs_compose(s, signed, seq![r_nonce]);
    law_runs_compose(s, signed + seq![r_nonce], seq![r_buffer]);
    assert(w.first_replies(response) =~= signed + seq![r_nonce] + seq![r_buffer]);
    assert(seq![first] + actions_after(s, w.first_replies(response)) =~= w.first_actions(
        response,
        req,
    ) + seq![begun.1]);
}

/// The values.
proof fn lemma_exchange_reads(response: ResponseView, w: Contribution)
    requires
        response.wf(),
        w.suits(response),
    ensures
        ({
            let begun = w.filled(response, 0).read_on();
            let full = unsigned_outcome(w, response, Stage::Value).close();
            &&& state_after(begun.0, w.value_replies()) == full.0
            &&& seq![begun.1] + actions_after(begun.0, w.value_replies()) == w.value_actions(
                response,
            ) + seq![full.1]
        }),
{
    let n = response.entries.len() as int;
    let begun = w.filled(response, 0).read_on();
    let full = w.filled(response, n);
    lemma_values_are_read(w, response, n);
    assert(w.value_replies().take(n) =~= w.value_replies());
    assert(w.values().take(n) =~= w.values());
    assert(full == unsigned_outcome(w, response, Stage::Value));
    assert(full.read_on() == full.close());
    let asked = w.value_actions(response);
    let turns = Seq::new(n as nat, |i: int| w.filled(response, i + 1).read_on().1);
    assert forall|i: int| 0 <= i < n implies w.filled(response, i).read_on().1 == #[trigger] asked[i]
        by {
        lemma_room_for_value(w, response, i);
    }
    let left = seq![begun.1] + turns;
    let right = asked + seq![full.close().1];
    assert forall|i: int| 0 <= i < left.len() implies left[i] == right[i] by {
        assert(left[i] == w.filled(response, i).read_on().1);
        if i < n {
            assert(right[i] == asked[i]);
        }
    }
    assert(left =~= right);
}

/// A complete message that is too long for one piece is checked first.
proof fn lemma_exchange_checks(response: ResponseView, w: Contribution)
    requires
        response.wf(),
        w.suits(response),
    ensures
        ({
            let full = unsigned_outcome(w, response, Stage::Value).close();
            let stage = if w.outcome(response).goes_in_one_piece() {
                Stage::Value
            } else {
                Stage::CheckLarge
            };
            let complete = unsigned_outcome(w, response, stage).sign_or_send();
            &&& state_after(full.0, w.check_replies(response)) == complete.0
            &&& seq![full.1] + actions_after(full.0, w.check_replies(response))
                == w.check_actions(response) + seq![complete.1]
        }),
{
    let o = w.outcome(response);
    let t = unsigned_outcome(w, response, Stage::Value);
    let full = t.close();
    let large = unsigned_outcome(w, response, Stage::CheckLarge);
    lemma_whole_message_is_sent(w, response, Stage::Value);
    assert(t.unsigned_message() == o.unsigned_message());
    assert(t.final_len() == o.final_len());
    if o.goes_in_one_piece() {
        lemma_no_reply(full.0);
        assert(full == t.sign_or_send());
        assert(seq![full.1] + Seq::<ActionView>::empty() =~= Seq::<ActionView>::empty() + seq![
            full.1,
        ]);
    } else {
        lemma_one_reply(large, ReplyView::Done);
        assert(full.0 == large);
    }
}

/// Asking part by part, where each part begins with what the part before it
/// led to.
proof fn lemma_parts_join(
    first: ActionView,
    a: Seq<ActionView>,
    part: Seq<ActionView>,
    next: ActionView,
    b: Seq<ActionView>,
    rest: Seq<ActionView>,
)
    requires
        seq![first] + a == part + seq![next],
        seq![next] + b == rest,
    ensures
        seq![first] + (a + b) == part + rest,
{
    assert(seq![first] + (a + b) =~= (seq![first] + a) + b);
    assert((part + seq![next]) + b =~= part + (seq![next] + b));
}

/// Where the platform does what it is asked, an accepted request is answered.
/// All that the platform is asked, in order: a request for a signature goes
/// into the transcript; a nonce and a buffer; every measurement that was asked
/// for, once; where the message is too long for one piece, whether it can go
/// in chunks; where a signature was asked for, the response goes into the
/// transcript too, and the digest of the signing context and the transcript is
/// signed by the slot; then the whole message is sent.
pub proof fn law_honest_exchange_is_answered(
    response: ResponseView,
    req: Seq<u8>,
    w: Contribution,
)
    requires
        response.wf(),
        w.suits(response),
    ensures
        ({
            let (s, first) = ExchangeView::start(response, req);
            &&& seq![first] + actions_after(s, w.replies(response)) == w.actions(response, req)
            &&& state_after(s, w.replies(response)) == w.sent(response)
        }),
{
    let (s, first) = ExchangeView::start(response, req);
    let stage = if w.outcome(response).goes_in_one_piece() {
        Stage::Value
    } else {
        Stage::CheckLarge
    };
    let begun = w.filled(response, 0).read_on();
    let full = unsigned_outcome(w, response, Stage::Value).close();
    let complete = unsigned_outcome(w, response, stage).sign_or_send();
    lemma_exchange_opens(response, req, w);
    lemma_exchange_reads(response, w);
    lemma_exchange_checks(response, w);
    lemma_complete_message_goes_out(w, response, stage);
    lemma_runs_join(
        s,
        first,
        w.first_replies(response),
        w.first_actions(response, req),
        begun,
        w.value_replies(),
        w.value_actions(response),
        full,
        w.check_replies(response),
        w.check_actions(response),
        complete,
        w.signing_replies(response),
        w.signing_actions(response) + seq![w.sending(response)],
    );
}

/// A run in four parts.
proof fn lemma_runs_join(
    s: ExchangeView,
    first: ActionView,
    r1: Seq<ReplyView>,
    p1: Seq<ActionView>,
    s2: (ExchangeView, ActionView),
    r2: Seq<ReplyView>,
    p2: Seq<ActionView>,
    s3: (ExchangeView, ActionView),
    r3: Seq<ReplyView>,
    p3: Seq<ActionView>,
    s4: (ExchangeView, ActionView),
    r4: Seq<ReplyView>,
    p4: Seq<ActionView>,
)
    requires
        state_after(s, r1) == s2.0,
        seq![first] + actions_after(s, r1) == p1 + seq![s2.1],
        state_after(s2.0, r2) == s3.0,
        seq![s2.1] + actions_after(s2.0, r2) == p2 + seq![s3.1],
        state_after(s3.0, r3) == s4.0,
        seq![s3.1] + actions_after(s3.0, r3) == p3 + seq![s4.1],
        seq![s4.1] + actions_after(s4.0, r4) == p4,
    ensures
        state_after(s, r1 + r2 + (r3 + r4)) == state_after(s4.0, r4),
        seq![first] + actions_after(s, r1 + r2 + (r3 + r4)) == p1 + p2 + (p3 + p4),
{
    law_runs_compose(s3.0, r3, r4);
    law_runs_compose(s, r1, r2);
    law_runs_compose(s, r1 + r2, r3 + r4);
    let a1 = actions_after(s, r1);
    let a2 = actions_after(s2.0, r2);
    let a3 = actions_after(s3.0, r3);
    let a4 = actions_after(s4.0, r4);
    lemma_parts_join(s3.1, a3, p3, s4.1, a4, p4);
    lemma_parts_join(s2.1, a2, p2, s3.1, a3 + a4, p3 + p4);
    lemma_parts_join(first, a1, p1, s2.1, a2 + (a3 + a4), p2 + (p3 + p4));
    assert(a1 + a2 + (a3 + a4) =~= a1 + (a2 + (a3 + a4)));
    assert(p1 + p2 + (p3 + p4) =~= p1 + (p2 + (p3 + p4)));
}

/// The reply that the whole message went out.
pub open spec fn sent_reply(w: Contribution, response: ResponseView, started: nat) -> ReplyView {
    if w.outcome(response).goes_in_one_piece() {
        ReplyView::Done
    } else {
        ReplyView::Started(started)
    }
}

/// When the whole message was sent, the exchange is over, and the length that
/// it reports is that of the message, or what the platform says has begun to
/// go out in chunks.
pub proof fn law_honest_exchange_finishes(
    response: ResponseView,
    req: Seq<u8>,
    w: Contribution,
    started: nat,
)
    requires
        response.wf(),
        w.suits(response),
    ensures
        ({
            let s = ExchangeView::start(response, req).0;
            let replies = w.replies(response).push(sent_reply(w, response, started));
            let o = w.outcome(response);
            &&& state_after(s, replies) == o
            &&& actions_after(s, replies).last() == ActionView::Finished {
                spdm_len: if o.goes_in_one_piece() {
                    o.message().len()
                } else {
                    started
                },
            }
        }),
{
    reveal(state_after);
    reveal(actions_after);
    let s = ExchangeView::start(response, req).0;
    let replies = w.replies(response).push(sent_reply(w, response, started));
    law_honest_exchange_is_answered(response, req, w);
    assert(replies.drop_last() =~= w.replies(response));
    assert(state_after(s, replies) == w.sent(response).next(replies.last()).0);
}

/// A step that sends in one piece sends the padded message.
proof fn lemma_deliver_step(s: ExchangeView, reply: ReplyView)
    requires
        in_order(s),
        s.next(reply).1 is Deliver,
    ensures
        ({
            let (t, action) = s.next(reply);
            &&& t.stage is Deliver
            &&& action == ActionView::Deliver {
                buf: t.packet(),
                len: t.padded_len(),
                spdm_len: t.message().len(),
            }
            &&& t.padded_len() <= t.allocated.len()
        }),
{
}

/// How the buffer of a message that is sent in one piece is laid out.
proof fn lemma_packet_layout(s: ExchangeView)
    requires
        keeps_head(s),
        s.head() + s.message().len() <= s.padded_len() <= s.allocated.len(),
    ensures
        ({
            let end = s.head() + s.message().len();
            &&& s.packet().len() == s.allocated.len()
            &&& s.packet().take(s.head() as int) == s.allocated.take(s.head() as int)
            &&& s.packet().subrange(s.head() as int, end as int) == s.message()
            &&& s.packet().subrange(end as int, s.padded_len() as int) == zeros(
                (s.padded_len() - end) as nat,
            )
        }),
{
    let end = s.head() + s.message().len();
    assert(s.packet().take(s.head() as int) =~= s.allocated.take(s.head() as int));
    assert(s.packet().subrange(s.head() as int, end as int) =~= s.message());
    assert(s.packet().subrange(end as int, s.padded_len() as int) =~= zeros(
        (s.padded_len() - end) as nat,
    ));
}

/// The last step of a run.
proof fn lemma_last_step(s: ExchangeView, replies: Seq<ReplyView>)
    requires
        in_order(s),
        sized_replies(replies),
        replies.len() > 0,
    ensures
        in_order(state_after(s, replies.drop_last())),
        in_order(state_after(s, replies)),
        state_after(s, replies).response == s.response,
        state_after(s, replies) == state_after(s, replies.drop_last()).next(replies.last()).0,
        actions_after(s, replies) == actions_after(s, replies.drop_last()).push(
            state_after(s, replies.drop_last()).next(replies.last()).1,
        ),
        actions_after(s, replies).len() == replies.len(),
{
    reveal(state_after);
    reveal(actions_after);
    law_run_keeps_order(s, replies);
    law_run_keeps_order(s, replies.drop_last());
    lemma_one_action_each(s, replies);
}

/// Whatever the platform replies, a message that is sent in one piece is the
/// whole message: all the measurements that were asked for, with values that
/// their blocks can carry, and the signature where one was asked for. It lies
/// behind the transport's bytes, which are left as they were allocated, and is
/// padded with zero bytes to the least multiple of the alignment. It is no
/// longer than goes in one piece.
pub proof fn law_delivered_message_is_whole(
    response: ResponseView,
    req: Seq<u8>,
    replies: Seq<ReplyView>,
)
    requires
        response.wf(),
        sized_replies(replies),
        replies.len() > 0,
        actions_after(ExchangeView::start(response, req).0, replies).last() is Deliver,
    ensures
        ({
            let s = state_after(ExchangeView::start(response, req).0, replies);
            let action = actions_after(ExchangeView::start(response, req).0, replies).last();
            let buf = action->Deliver_buf;
            let len = action->Deliver_len;
            let end = s.head() + s.message().len();
            &&& s.response == response
            &&& s.values.len() == response.entries.len()
            &&& values_fit(response.entries, s.values)
            &&& s.signature.len() == response.signature_len()
            &&& action->Deliver_spdm_len == s.message().len()
            &&& s.message().len() <= response.transport.data_transfer_size
            &&& s.message().len() <= response.max_message_len()
            &&& buf.len() == s.allocated.len()
            &&& buf.take(s.head() as int) == s.allocated.take(s.head() as int)
            &&& buf.subrange(s.head() as int, end as int) == s.message()
            &&& end <= len <= buf.len()
            &&& buf.subrange(end as int, len as int) == zeros((len - end) as nat)
            &&& len == round_up(end, response.transport.send_len_alignment as nat)
        }),
{
    let start = ExchangeView::start(response, req).0;
    let s = state_after(start, replies);
    law_start_is_in_order(response, req);
    lemma_last_step(start, replies);
    lemma_deliver_step(state_after(start, replies.drop_last()), replies.last());
    lemma_message_len(response, s.nonce, s.values);
    law_round_up_is_tight_multiple(
        s.head() + s.message().len(),
        response.transport.send_len_alignment as nat,
    );
    lemma_packet_layout(s);
}

/// A step that begins to send in chunks keeps the message.
proof fn lemma_large_step(s: ExchangeView, reply: ReplyView)
    requires
        in_order(s),
        s.next(reply).1 is StartLarge,
    ensures
        ({
            let (t, action) = s.next(reply);
            &&& t.stage is StartLarge
            &&& action == ActionView::StartLarge {
                buf: t.large_buffer(),
                spdm_len: t.message().len(),
            }
        }),
{
}

/// How the buffer of a message that is sent in chunks is laid out.
proof fn lemma_large_layout(s: ExchangeView)
    requires
        keeps_head(s),
        s.head() + s.message().len() <= s.allocated.len(),
    ensures
        s.large_buffer().len() == s.allocated.len(),
        s.large_buffer().take(s.message().len() as int) == s.message(),
{
    let len = s.message().len() as int;
    let whole = splice(s.backing, s.head() as int, s.message());
    assert(whole.subrange(s.head() as int, s.head() + len) =~= s.message());
    assert(s.large_buffer().take(len) =~= s.message());
}

/// Whatever the platform replies, a message that is kept for sending in
/// chunks is the whole message, at the front of its buffer, and longer than
/// goes in one piece.
pub proof fn law_large_message_is_whole(
    response: ResponseView,
    req: Seq<u8>,
    replies: Seq<ReplyView>,
)
    requires
        response.wf(),
        sized_replies(replies),
        replies.len() > 0,
        actions_after(ExchangeView::start(response, req).0, replies).last() is StartLarge,
    ensures
        ({
            let s = state_after(ExchangeView::start(response, req).0, replies);
            let action = actions_after(ExchangeView::start(response, req).0, replies).last();
            let buf = action->StartLarge_buf;
            &&& s.response == response
            &&& s.values.len() == response.entries.len()
            &&& values_fit(response.entries, s.values)
            &&& s.signature.len() == response.signature_len()
            &&& action->StartLarge_spdm_len == s.message().len()
            &&& s.message().len() > response.transport.data_transfer_size
            &&& s.message().len() <= response.max_message_len()
            &&& buf.len() == s.allocated.len()
            &&& buf.take(s.message().len() as int) == s.message()
        }),
{
    let start = ExchangeView::start(response, req).0;
    let s = state_after(start, replies);
    law_start_is_in_order(response, req);
    lemma_last_step(start, replies);
    lemma_large_step(state_after(start, replies.drop_last()), replies.last());
    lemma_message_len(response, s.nonce, s.values);
    lemma_large_layout(s);
}

/// The length that decides how a message goes out.
proof fn lemma_length_step(s: ExchangeView, reply: ReplyView)
    requires
        in_order(s),
    ensures
        ({
            let (t, action) = s.next(reply);
            &&& action is Deliver ==> t.goes_in_one_piece()
            &&& action is ValidateLarge || action is StartLarge ==> !t.goes_in_one_piece()
        }),
{
}

/// Whatever the platform replies, the actual length of a message decides how
/// it goes out, not the longest that it could have had.
pub proof fn law_actual_length_decides(
    response: ResponseView,
    req: Seq<u8>,
    replies: Seq<ReplyView>,
)
    requires
        response.wf(),
        sized_replies(replies),
        replies.len() > 0,
    ensures
        ({
            let s = state_after(ExchangeView::start(response, req).0, replies);
            let action = actions_after(ExchangeView::start(response, req).0, replies).last();
            let limit = response.transport.data_transfer_size;
            &&& action is Deliver ==> s.final_len() <= limit
            &&& action is ValidateLarge || action is StartLarge ==> s.final_len() > limit
        }),
{
    let start = ExchangeView::start(response, req).0;
    law_start_is_in_order(response, req);
    lemma_last_step(start, replies);
    law_run_keeps_order(start, replies.drop_last());
    lemma_length_step(state_after(start, replies.drop_last()), replies.last());
}

/// Whatever the platform replies, an exchange without a signature touches
/// neither the transcript nor the signer.
pub proof fn law_unsigned_exchange_is_not_signed(
    response: ResponseView,
    req: Seq<u8>,
    replies: Seq<ReplyView>,
)
    requires
        response.wf(),
        !response.signed(),
        sized_replies(replies),
        replies.len() > 0,
    ensures
        ({
            let first = ExchangeView::start(response, req).1;
            let action = actions_after(ExchangeView::start(response, req).0, replies).last();
            &&& first is GenerateNonce
            &&& !(action is AppendTranscript || action is FinalizeTranscript || action is HashInit
                || action is HashUpdate || action is HashFinish || action is Sign)
        }),
{
    reveal(state_after);
    reveal(actions_after);
    let start = ExchangeView::start(response, req).0;
    law_start_is_in_order(response, req);
    law_run_keeps_order(start, replies.drop_last());
}

/// A step that reads a value reads the next one.
proof fn lemma_read_step(s: ExchangeView, reply: ReplyView)
    requires
        in_order(s),
        s.next(reply).1 is ReadValue,
    ensures
        ({
            let (t, action) = s.next(reply);
            let entry = s.response.entries[t.values.len() as int];
            &&& t.stage is Value
            &&& action == ActionView::ReadValue {
                index: entry.index,
                nonce: s.response.requester_nonce(),
                size: entry.value_size,
            }
        }),
{
}

/// Whatever the platform replies, the measurement that is read next is the one
/// after those whose values are there, at its longest; and it is handed the
/// requester's nonce exactly when a signature was asked for.
pub proof fn law_values_are_read_in_order(
    response: ResponseView,
    req: Seq<u8>,
    replies: Seq<ReplyView>,
)
    requires
        response.wf(),
        sized_replies(replies),
        replies.len() > 0,
        actions_after(ExchangeView::start(response, req).0, replies).last() is ReadValue,
    ensures
        ({
            let s = state_after(ExchangeView::start(response, req).0, replies);
            let action = actions_after(ExchangeView::start(response, req).0, replies).last();
            &&& s.values.len() < response.entries.len()
            &&& action->ReadValue_index == response.entries[s.values.len() as int].index
            &&& action->ReadValue_size == response.entries[s.values.len() as int].value_size
            &&& action->ReadValue_nonce == response.requester_nonce()
            &&& action->ReadValue_nonce is Some <==> response.signed()
        }),
{
    let start = ExchangeView::start(response, req).0;
    law_start_is_in_order(response, req);
    lemma_last_step(start, replies);
    law_run_keeps_order(start, replies.drop_last());
    lemma_read_step(state_after(start, replies.drop_last()), replies.last());
}

/// The bytes that some actions append to the transcript, in order.
pub open spec fn appended(actions: Seq<ActionView>) -> Seq<Seq<u8>>
    decreases actions.len(),
{
    if actions.len() == 0 {
        Seq::empty()
    } else {
        match actions.last() {
            ActionView::AppendTranscript(bytes) => appended(actions.drop_last()).push(bytes),
            _ => appended(actions.drop_last()),
        }
    }
}

/// What the transcript of an exchange that is to be signed holds.
proof fn lemma_transcript_so_far(response: ResponseView, req: Seq<u8>, replies: Seq<ReplyView>)
    requires
        response.wf(),
        response.signed(),
        sized_replies(replies),
    ensures
        ({
            let (start, first) = ExchangeView::start(response, req);
            let s = state_after(start, replies);
            let bytes = appended(seq![first] + actions_after(start, replies));
            let request = req.take(request_len(response.version, true) as int);
            match s.stage {
                Stage::AppendRequest
                | Stage::Nonce
                | Stage::Allocate
                | Stage::Value
                | Stage::CheckLarge => bytes == seq![request],
                Stage::Ended => true,
                _ => bytes == seq![request, s.unsigned_message()],
            }
        }),
    decreases replies.len(),
{
    reveal(state_after);
    reveal(actions_after);
    let (start, first) = ExchangeView::start(response, req);
    let request = req.take(request_len(response.version, true) as int);
    law_start_is_in_order(response, req);
    if replies.len() == 0 {
        let actions = seq![first] + actions_after(start, replies);
        assert(actions =~= seq![first]);
        assert(actions.drop_last() =~= Seq::<ActionView>::empty());
        assert(appended(actions.drop_last()) =~= Seq::<Seq<u8>>::empty());
        assert(appended(actions) =~= seq![request]);
    } else {
        let shorter = replies.drop_last();
        lemma_transcript_so_far(response, req, shorter);
        law_run_keeps_order(start, shorter);
        let before = state_after(start, shorter);
        let (s, action) = before.next(replies.last());
        let actions = seq![first] + actions_after(start, replies);
        assert(actions.drop_last() =~= seq![first] + actions_after(start, shorter));
        assert(actions.last() == action);
        assert(seq![request].push(s.unsigned_message()) =~= seq![request, s.unsigned_message()]);
        lemma_append_marks_response(before, replies.last());
    }
}

/// A step appends to the transcript exactly when it turns to the response.
proof fn lemma_append_marks_response(s: ExchangeView, reply: ReplyView)
    requires
        in_order(s),
    ensures
        ({
            let (t, action) = s.next(reply);
            &&& action is AppendTranscript <==> t.stage is AppendResponse
            &&& action is AppendTranscript ==> {
                &&& action == ActionView::AppendTranscript(t.unsigned_message())
                &&& s.stage is Allocate || s.stage is Value || s.stage is CheckLarge
            }
            &&& s.stage is AppendResponse && !(t.stage is Ended) ==> t.stage is FinalizeTranscript
            &&& s.stage is FinalizeTranscript && !(t.stage is Ended) ==> t.stage is HashInit
            &&& s.stage is HashInit && !(t.stage is Ended) ==> t.stage is HashUpdate
            &&& s.stage is HashUpdate && !(t.stage is Ended) ==> t.stage is HashFinish
            &&& s.stage is HashFinish && !(t.stage is Ended) ==> t.stage is Sign
            &&& s.stage is Sign && !(t.stage is Ended) ==> t.stage is Deliver || t.stage
                is StartLarge
            &&& s.stage is AppendResponse || s.stage is FinalizeTranscript || s.stage is HashInit
                || s.stage is HashUpdate || s.stage is HashFinish || s.stage is Sign
                ==> t.unsigned_message() == s.unsigned_message()
            &&& s.stage is Deliver || s.stage is StartLarge || s.stage is Ended ==> t.stage
                is Ended
            &&& s.response.signed() && (t.stage is Deliver || t.stage is StartLarge) ==> s.stage
                is Sign
        }),
{
}

/// The steps that lead to a signature.
proof fn lemma_signing_steps(s: ExchangeView, reply: ReplyView)
    requires
        in_order(s),
    ensures
        ({
            let (t, action) = s.next(reply);
            &&& action is Sign ==> {
                &&& s.stage is HashFinish
                &&& t.stage is Sign
                &&& action == ActionView::Sign {
                    slot_id: s.response.slot_id(),
                    asym_algo: s.response.asym_algo,
                    digest: reply->Digest_0,
                }
                &&& reply is Digest
            }
            &&& t.stage is HashFinish ==> s.stage is HashUpdate && action == ActionView::HashFinish
            &&& t.stage is HashUpdate ==> s.stage is HashInit && action == ActionView::HashUpdate(
                s.transcript,
            )
            &&& t.stage is HashInit ==> {
                &&& s.stage is FinalizeTranscript
                &&& reply is Digest
                &&& t.transcript == reply->Digest_0
                &&& action == ActionView::HashInit(signing_context_bytes(s.response.version))
            }
            &&& t.stage is FinalizeTranscript ==> {
                &&& s.stage is AppendResponse
                &&& action == ActionView::FinalizeTranscript
            }
        }),
{
}

/// Whatever the platform replies, what is signed covers the exchange: when a
/// signature is asked for, the transcript holds the request and the response
/// and nothing else; the transcript was finalized; the digest to be signed is
/// that of the signing context followed by the transcript's digest; and the
/// slot and the algorithm are those of the request and the connection.
pub proof fn law_signature_covers_exchange(
    response: ResponseView,
    req: Seq<u8>,
    replies: Seq<ReplyView>,
)
    requires
        response.wf(),
        sized_replies(replies),
        replies.len() > 0,
        actions_after(ExchangeView::start(response, req).0, replies).last() is Sign,
    ensures
        ({
            let (start, first) = ExchangeView::start(response, req);
            let s = state_after(start, replies);
            let actions = actions_after(start, replies);
            let n = replies.len() as int;
            let action = actions.last();
            &&& response.signed()
            &&& n >= 5
            &&& appended(seq![first] + actions) == seq![
                req.take(request_len(response.version, true) as int),
                s.unsigned_message(),
            ]
            &&& actions[n - 5] == ActionView::FinalizeTranscript
            &&& replies[n - 4] is Digest
            &&& actions[n - 4] == ActionView::HashInit(signing_context_bytes(response.version))
            &&& actions[n - 3] == ActionView::HashUpdate(replies[n - 4]->Digest_0)
            &&& actions[n - 2] == ActionView::HashFinish
            &&& replies[n - 1] == ReplyView::Digest(action->Sign_digest)
            &&& action->Sign_slot_id == response.slot_id()
            &&& action->Sign_asym_algo == response.asym_algo
        }),
{
    let (start, first) = ExchangeView::start(response, req);
    let n = replies.len() as int;
    let r1 = replies.drop_last();
    let r2 = r1.drop_last();
    let r3 = r2.drop_last();
    let r4 = r3.drop_last();
    law_start_is_in_order(response, req);
    lemma_signing_step(response, req, replies);
    lemma_signing_step(response, req, r1);
    lemma_signing_step(response, req, r2);
    lemma_signing_step(response, req, r3);
    lemma_signing_step(response, req, r4);
    lemma_transcript_so_far(response, req, replies);
    let actions = actions_after(start, replies);
    assert(actions[n - 2] == actions.drop_last().last());
    assert(actions[n - 3] == actions.drop_last().drop_last().last());
    assert(actions[n - 4] == actions.drop_last().drop_last().drop_last().last());
    assert(actions[n - 5] == actions.drop_last().drop_last().drop_last().drop_last().last());
}

/// The last step of a run that leads to a signature.
proof fn lemma_signing_step(response: ResponseView, req: Seq<u8>, replies: Seq<ReplyView>)
    requires
        response.wf(),
        sized_replies(replies),
        ({
            let start = ExchangeView::start(response, req).0;
            let s = state_after(start, replies);
            ||| s.stage is FinalizeTranscript
            ||| s.stage is HashInit
            ||| s.stage is HashUpdate
            ||| s.stage is HashFinish
            ||| replies.len() > 0 && actions_after(start, replies).last() is Sign
        }),
    ensures
        ({
            let start = ExchangeView::start(response, req).0;
            let before = state_after(start, replies.drop_last());
            let s = state_after(start, replies);
            let actions = actions_after(start, replies);
            let reply = replies.last();
            &&& replies.len() > 0
            &&& s.response == response
            &&& response.signed()
            &&& actions.len() == replies.len()
            &&& actions.drop_last() == actions_after(start, replies.drop_last())
            &&& actions.last() is Sign ==> {
                &&& before.stage is HashFinish
                &&& s.stage is Sign
                &&& reply is Digest
                &&& actions.last() == ActionView::Sign {
                    slot_id: response.slot_id(),
                    asym_algo: response.asym_algo,
                    digest: reply->Digest_0,
                }
            }
            &&& s.stage is HashFinish ==> before.stage is HashUpdate && actions.last()
                == ActionView::HashFinish
            &&& s.stage is HashUpdate ==> before.stage is HashInit && actions.last()
                == ActionView::HashUpdate(before.transcript)
            &&& s.stage is HashInit ==> {
                &&& before.stage is FinalizeTranscript
                &&& reply is Digest
                &&& s.transcript == reply->Digest_0
                &&& actions.last() == ActionView::HashInit(signing_context_bytes(response.version))
            }
            &&& s.stage is FinalizeTranscript ==> actions.last() == ActionView::FinalizeTranscript
        }),
{
    let start = ExchangeView::start(response, req).0;
    law_start_is_in_order(response, req);
    if replies.len() == 0 {
        reveal(state_after);
    } else {
        lemma_last_step(start, replies);
        law_run_keeps_order(start, replies.drop_last());
        lemma_signing_steps(state_after(start, replies.drop_last()), replies.last());
        assert(actions_after(start, replies).drop_last() =~= actions_after(
            start,
            replies.drop_last(),
        ));
    }
}

/// There is one action for each reply.
proof fn lemma_one_action_each(s: ExchangeView, replies: Seq<ReplyView>)
    ensures
        actions_after(s, replies).len() == replies.len(),
    decreases replies.len(),
{
    reveal(actions_after);
    if replies.len() > 0 {
        lemma_one_action_each(s, replies.drop_last());
    }
}

/// An exchange that is given up while it holds the response buffer hands the
/// buffer back with every byte cleared, and the exchange is over.
pub proof fn law_failure_clears_buffer(s: ExchangeView, reply: ReplyView)
    requires
        in_order(s),
        s.next(reply).1 is Failed,
    ensures
        s.next(reply).0.stage is Ended,
        s.stage.holds_buffer() ==> s.next(reply).1->cleared == Some(zeros(s.allocated.len())),
        s.stage is Allocate && reply is Buffer ==> s.next(reply).1->cleared == Some(
            zeros(reply->Buffer_0.len()),
        ),
{
}

/// How many replies an exchange takes at most.
pub open spec fn steps_left(s: ExchangeView) -> nat {
    let unread = (s.response.entries.len() - s.values.len()) as nat;
    match s.stage {
        Stage::AppendRequest => unread + 11,
        Stage::Nonce => unread + 10,
        Stage::Allocate => unread + 9,
        Stage::Value => unread + 8,
        Stage::CheckLarge => 8,
        Stage::AppendResponse => 7,
        Stage::FinalizeTranscript => 6,
        Stage::HashInit => 5,
        Stage::HashUpdate => 4,
        Stage::HashFinish => 3,
        Stage::Sign => 2,
        Stage::Deliver | Stage::StartLarge => 1,
        Stage::Ended => 0,
    }
}

/// Whatever the platform replies, an exchange comes nearer to its end.
proof fn lemma_next_makes_progress(s: ExchangeView, reply: ReplyView)
    requires
        in_order(s),
        !(s.stage is Ended),
    ensures
        steps_left(s.next(reply).0) < steps_left(s),
{
}

/// Whatever the platform replies, an exchange ends after at most one reply for
/// each measurement and eleven others.
pub proof fn law_exchange_ends(s: ExchangeView, replies: Seq<ReplyView>)
    requires
        in_order(s),
        sized_replies(replies),
    ensures
        replies.len() >= steps_left(s) ==> state_after(s, replies).stage is Ended,
        state_after(s, replies).stage is Ended || steps_left(state_after(s, replies))
            + replies.len() <= steps_left(s),
        steps_left(s) <= s.response.entries.len() + 11,
    decreases replies.len(),
{
    reveal(state_after);
    if replies.len() > 0 {
        let before = state_after(s, replies.drop_last());
        law_exchange_ends(s, replies.drop_last());
        law_run_keeps_order(s, replies.drop_last());
        if before.stage is Ended {
            law_ended_exchange_stays_ended(before, replies.last());
        } else {
            lemma_next_makes_progress(before, replies.last());
        }
    }
}

/// Nothing more is asked of the platform when an exchange is over.
pub proof fn law_ended_exchange_stays_ended(s: ExchangeView, reply: ReplyView)
    requires
        s.stage is Ended,
    ensures
        s.next(reply) == (
            s,
            ActionView::Failed {
                error: SpdmError::Unspecified,
                reset_large: false,
                cleared: None,
            },
        ),
{
}

} // verus!
