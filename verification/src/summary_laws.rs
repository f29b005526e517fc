//! What holds of whole measurement summaries, whatever the platform replies.
use crate::block::{
    accepted_len, block_bytes, block_capacity, record_bytes, selection, value_fits, values_fit,
};
use crate::error::SpdmError;
use crate::message_laws::{has_block, law_block_tells_measurement};
use crate::spdm::{MeasurementInfo, MEAS_OP_ALL};
use crate::summary::{
    covered, valid_summary_type, SummaryAction, SummaryActionView, SummaryReply, SummaryReplyView,
    SummaryStage, SummaryView, SUMMARY_ALL, SUMMARY_TCB,
};
use vstd::prelude::*;

verus! {

/// A summary covers the measurements that it is for, and no others: all of
/// them, as they stand; or those of the trusted computing base.
pub proof fn law_summary_covers(info: Seq<MeasurementInfo>)
    ensures
        covered(SUMMARY_ALL, info) == info,
        forall|i: int|
            0 <= i < covered(SUMMARY_TCB, info).len() ==> {
                &&& (#[trigger] covered(SUMMARY_TCB, info)[i]).is_tcb
                &&& info.contains(covered(SUMMARY_TCB, info)[i])
            },
        forall|i: int|
            0 <= i < info.len() && (#[trigger] info[i]).is_tcb ==> covered(
                SUMMARY_TCB,
                info,
            ).contains(info[i]),
    decreases info.len(),
{
    reveal(Seq::filter);
    let tcb = covered(SUMMARY_TCB, info);
    if info.len() == 0 {
        assert(covered(SUMMARY_ALL, info) =~= info);
    } else {
        let shorter = info.drop_last();
        let before = covered(SUMMARY_TCB, shorter);
        law_summary_covers(shorter);
        assert(shorter.push(info.last()) =~= info);
        assert(covered(SUMMARY_ALL, info) =~= info);
        assert forall|i: int| 0 <= i < tcb.len() implies {
            &&& (#[trigger] tcb[i]).is_tcb
            &&& info.contains(tcb[i])
        } by {
            if i < before.len() {
                assert(tcb[i] == before[i]);
                let j = choose|j: int| 0 <= j < shorter.len() && shorter[j] == before[i];
                assert(info[j] == before[i]);
            } else {
                assert(tcb[i] == info[info.len() - 1]);
            }
        }
        assert forall|i: int| 0 <= i < info.len() && (#[trigger] info[i]).is_tcb implies tcb.contains(
            info[i],
        ) by {
            if i < shorter.len() {
                assert(shorter[i].is_tcb);
                let j = choose|j: int| 0 <= j < before.len() && before[j] == shorter[i];
                assert(tcb[j] == info[i]);
            } else {
                assert(tcb.last() == info[i]);
            }
        }
    }
}

/// A summary over all measurements digests the record that a request for all
/// measurements would report for the same values.
pub proof fn law_full_summary_is_of_full_record(
    info: Seq<MeasurementInfo>,
    values: Seq<Seq<u8>>,
)
    ensures
        selection(info, MEAS_OP_ALL) is Some,
        record_bytes(covered(SUMMARY_ALL, info), values) == record_bytes(
            selection(info, MEAS_OP_ALL)->0,
            values,
        ),
{
    law_summary_covers(info);
}

/// What a summary comes to after some replies.
#[verifier::opaque]
pub open spec fn summary_after(s: SummaryView, replies: Seq<SummaryReplyView>) -> SummaryView
    decreases replies.len(),
{
    if replies.len() == 0 {
        s
    } else {
        summary_after(s, replies.drop_last()).next(replies.last()).0
    }
}

/// What a summary asks, one action for each of some replies.
#[verifier::opaque]
pub open spec fn summary_actions(s: SummaryView, replies: Seq<SummaryReplyView>) -> Seq<
    SummaryActionView,
>
    decreases replies.len(),
{
    if replies.len() == 0 {
        Seq::empty()
    } else {
        summary_actions(s, replies.drop_last()).push(
            summary_after(s, replies.drop_last()).next(replies.last()).1,
        )
    }
}

/// What every summary keeps.
pub open spec fn summary_in_order(s: SummaryView) -> bool {
    &&& values_fit(s.entries, s.values)
    &&& match s.stage {
        SummaryStage::Allocate | SummaryStage::Value => s.values.len() < s.entries.len(),
        SummaryStage::Hash => s.values.len() > 0,
        SummaryStage::Finish => s.values.len() == s.entries.len(),
        SummaryStage::Ended => true,
    }
}

/// The reply to a value leaves the values such that they can stand in their
/// blocks.
proof fn lemma_next_keeps_summary(s: SummaryView, reply: SummaryReplyView)
    requires
        summary_in_order(s),
    ensures
        summary_in_order(s.next(reply).0),
        s.next(reply).0.entries == s.entries,
{
    if s.stage is Value && reply is Value {
        let entry = s.entries[s.values.len() as int];
        let bytes = reply->Value_0;
        let accepted = accepted_len(entry, reply->Value_1);
        if accepted is Some && bytes.len() == entry.value_size {
            let values = s.values.push(bytes.take(accepted->0 as int));
            assert forall|i: int| 0 <= i < values.len() implies value_fits(
                s.entries[i],
                #[trigger] values[i].len(),
            ) by {
                if i < s.values.len() {
                    assert(values[i] == s.values[i]);
                }
            }
        }
    }
}

/// Any replies leave a summary in order, and do not change what it covers.
pub proof fn law_run_keeps_summary(s: SummaryView, replies: Seq<SummaryReplyView>)
    requires
        summary_in_order(s),
    ensures
        summary_in_order(summary_after(s, replies)),
        summary_after(s, replies).entries == s.entries,
        summary_actions(s, replies).len() == replies.len(),
    decreases replies.len(),
{
    reveal(summary_after);
    reveal(summary_actions);
    if replies.len() > 0 {
        law_run_keeps_summary(s, replies.drop_last());
        lemma_next_keeps_summary(summary_after(s, replies.drop_last()), replies.last());
    }
}

/// The calls that some actions make to feed the digest, in order.
pub open spec fn digest_calls(actions: Seq<SummaryActionView>) -> Seq<SummaryActionView> {
    actions.filter(|action: SummaryActionView| action is HashInit || action is HashUpdate)
}

/// The call that feeds the block of the `i`-th covered measurement: the first
/// begins the digest, the others go on with it.
pub open spec fn block_call(
    entries: Seq<MeasurementInfo>,
    values: Seq<Seq<u8>>,
    i: int,
) -> SummaryActionView {
    if i == 0 {
        SummaryActionView::HashInit(block_bytes(entries[i], values[i]))
    } else {
        SummaryActionView::HashUpdate(block_bytes(entries[i], values[i]))
    }
}

/// The calls that feed the blocks of some values.
pub open spec fn block_calls(entries: Seq<MeasurementInfo>, values: Seq<Seq<u8>>) -> Seq<
    SummaryActionView,
> {
    Seq::new(values.len(), |i: int| block_call(entries, values, i))
}

/// The bytes that some calls feed to the digest.
pub open spec fn fed_bytes(calls: Seq<SummaryActionView>) -> Seq<u8>
    decreases calls.len(),
{
    if calls.len() == 0 {
        Seq::empty()
    } else {
        fed_bytes(calls.drop_last()) + match calls.last() {
            SummaryActionView::HashInit(block) => block,
            SummaryActionView::HashUpdate(block) => block,
            _ => Seq::empty(),
        }
    }
}

/// Feeding the blocks one by one feeds their record.
pub proof fn law_blocks_feed_record(entries: Seq<MeasurementInfo>, values: Seq<Seq<u8>>)
    ensures
        fed_bytes(block_calls(entries, values)) == record_bytes(entries, values),
    decreases values.len(),
{
    let calls = block_calls(entries, values);
    if values.len() > 0 {
        law_blocks_feed_record(entries, values.drop_last());
        assert(calls.drop_last() =~= block_calls(entries, values.drop_last()));
        assert(calls.last() == block_call(entries, values, values.len() - 1));
    }
}

/// A step feeds the digest exactly when it takes a value, and then the block
/// of that value.
proof fn lemma_step_feeds_value(s: SummaryView, reply: SummaryReplyView)
    requires
        summary_in_order(s),
    ensures
        ({
            let (t, action) = s.next(reply);
            if action is HashInit || action is HashUpdate {
                block_calls(t.entries, t.values) == block_calls(s.entries, s.values).push(action)
            } else {
                t.values == s.values
            }
        }),
{
    let (t, action) = s.next(reply);
    lemma_next_keeps_summary(s, reply);
    if action is HashInit || action is HashUpdate {
        assert(block_calls(t.entries, t.values) =~= block_calls(s.entries, s.values).push(action));
    }
}

/// Whatever the platform replies, what was fed to the digest is the blocks of
/// the values that were read, in the order of the covered measurements, one
/// call for each.
pub proof fn law_digest_is_fed_blocks(
    hash_type: u8,
    info: Seq<MeasurementInfo>,
    replies: Seq<SummaryReplyView>,
)
    requires
        SummaryView::start(hash_type, info) is Ok,
    ensures
        ({
            let (start, first) = SummaryView::start(hash_type, info)->Ok_0;
            let s = summary_after(start, replies);
            &&& s.entries == covered(hash_type, info)
            &&& values_fit(s.entries, s.values)
            &&& first is Allocate
            &&& digest_calls(summary_actions(start, replies)) == block_calls(s.entries, s.values)
        }),
    decreases replies.len(),
{
    let (start, first) = SummaryView::start(hash_type, info)->Ok_0;
    let s = summary_after(start, replies);
    reveal(summary_after);
    reveal(summary_actions);
    reveal(Seq::filter);
    law_run_keeps_summary(start, replies);
    if replies.len() == 0 {
        assert(digest_calls(summary_actions(start, replies)) =~= block_calls(s.entries, s.values));
    } else {
        let shorter = replies.drop_last();
        let before = summary_after(start, shorter);
        let actions = summary_actions(start, replies);
        law_digest_is_fed_blocks(hash_type, info, shorter);
        law_run_keeps_summary(start, shorter);
        lemma_step_feeds_value(before, replies.last());
        assert(actions.drop_last() =~= summary_actions(start, shorter));
        assert(actions.last() == before.next(replies.last()).1);
    }
}

/// Whatever the platform replies, the digest is asked for when the blocks of
/// all covered measurements were fed to it: their whole record, and nothing
/// else.
pub proof fn law_digest_covers_record(
    hash_type: u8,
    info: Seq<MeasurementInfo>,
    replies: Seq<SummaryReplyView>,
)
    requires
        SummaryView::start(hash_type, info) is Ok,
        replies.len() > 0,
        summary_actions(SummaryView::start(hash_type, info)->Ok_0.0, replies).last() is HashFinish,
    ensures
        ({
            let (start, first) = SummaryView::start(hash_type, info)->Ok_0;
            let s = summary_after(start, replies);
            &&& s.values.len() == covered(hash_type, info).len()
            &&& fed_bytes(digest_calls(summary_actions(start, replies))) == record_bytes(
                covered(hash_type, info),
                s.values,
            )
        }),
{
    let (start, first) = SummaryView::start(hash_type, info)->Ok_0;
    let s = summary_after(start, replies);
    law_digest_is_fed_blocks(hash_type, info, replies);
    law_blocks_feed_record(s.entries, s.values);
    law_run_keeps_summary(start, replies);
    law_run_keeps_summary(start, replies.drop_last());
    reveal(summary_after);
    reveal(summary_actions);
}

/// What a platform contributes to a summary in which nothing fails.
pub struct SummaryContribution {
    /// For each covered measurement, a buffer for its block.
    pub buffers: Seq<Seq<u8>>,
    /// For each covered measurement, what it left in its buffer, and the
    /// length that it reported.
    pub reads: Seq<(Seq<u8>, nat)>,
    /// The digest.
    pub digest: Seq<u8>,
}

impl SummaryContribution {
    /// The values of the covered measurements.
    pub open spec fn values(self) -> Seq<Seq<u8>> {
        Seq::new(self.reads.len(), |i: int| self.reads[i].0.take(self.reads[i].1 as int))
    }

    /// Whether the platform does what it is asked.
    pub open spec fn suits(self, entries: Seq<MeasurementInfo>) -> bool {
        &&& self.buffers.len() == entries.len()
        &&& self.reads.len() == entries.len()
        &&& forall|i: int|
            0 <= i < entries.len() ==> {
                &&& block_capacity(#[trigger] entries[i]) <= self.buffers[i].len()
                &&& value_fits(entries[i], self.reads[i].1)
                &&& self.reads[i].0.len() == entries[i].value_size
            }
    }

    /// The replies about the first `k` covered measurements.
    pub open spec fn block_replies(self, k: nat) -> Seq<SummaryReplyView>
        decreases k,
    {
        if k == 0 {
            Seq::empty()
        } else {
            let i = k - 1;
            self.block_replies((k - 1) as nat) + seq![
                SummaryReplyView::Buffer(self.buffers[i]),
                SummaryReplyView::Value(self.reads[i].0, Some(self.reads[i].1)),
                SummaryReplyView::Done,
            ]
        }
    }

    /// What is asked about the first `k` covered measurements.
    pub open spec fn block_actions(self, entries: Seq<MeasurementInfo>, k: nat) -> Seq<
        SummaryActionView,
    >
        decreases k,
    {
        if k == 0 {
            Seq::empty()
        } else {
            let i = k - 1;
            self.block_actions(entries, (k - 1) as nat) + seq![
                SummaryActionView::Allocate(block_capacity(entries[i])),
                SummaryActionView::ReadValue {
                    index: entries[i].index,
                    size: entries[i].value_size,
                },
                block_call(entries, self.values(), i),
            ]
        }
    }

    /// The summary when `k` values went to the digest.
    spec fn fed(self, entries: Seq<MeasurementInfo>, k: int) -> SummaryView {
        SummaryView { entries, stage: SummaryStage::Hash, values: self.values().take(k) }
    }
}

/// One covered measurement.
proof fn lemma_block_is_fed(w: SummaryContribution, entries: Seq<MeasurementInfo>, i: int)
    requires
        w.suits(entries),
        0 <= i < entries.len(),
    ensures
        ({
            let s = w.fed(entries, i).go_on().0;
            let r1 = SummaryReplyView::Buffer(w.buffers[i]);
            let r2 = SummaryReplyView::Value(w.reads[i].0, Some(w.reads[i].1));
            let r3 = SummaryReplyView::Done;
            let t = s.next(r1);
            let u = t.0.next(r2);
            &&& w.fed(entries, i).go_on().1 == SummaryActionView::Allocate(
                block_capacity(entries[i]),
            )
            &&& t.1 == SummaryActionView::ReadValue {
                index: entries[i].index,
                size: entries[i].value_size,
            }
            &&& u.1 == block_call(entries, w.values(), i)
            &&& u.0.next(r3) == w.fed(entries, i + 1).go_on()
        }),
{
    assert(w.fed(entries, i).values.push(w.values()[i]) =~= w.values().take(i + 1));
}

/// The covered measurements, one after the other.
proof fn lemma_blocks_are_fed(w: SummaryContribution, entries: Seq<MeasurementInfo>, k: nat)
    requires
        w.suits(entries),
        k <= entries.len(),
    ensures
        ({
            let (s, first) = w.fed(entries, 0).go_on();
            let (t, next) = w.fed(entries, k as int).go_on();
            &&& summary_after(s, w.block_replies(k)) == t
            &&& seq![first] + summary_actions(s, w.block_replies(k)) == w.block_actions(entries, k)
                + seq![next]
        }),
    decreases k,
{
    let (s, first) = w.fed(entries, 0).go_on();
    if k == 0 {
        reveal(summary_after);
        reveal(summary_actions);
        assert(seq![first] + Seq::<SummaryActionView>::empty() =~= Seq::<SummaryActionView>::empty()
            + seq![first]);
    } else {
        let i = k - 1;
        let shorter = w.block_replies(i as nat);
        let r1 = SummaryReplyView::Buffer(w.buffers[i]);
        let r2 = SummaryReplyView::Value(w.reads[i].0, Some(w.reads[i].1));
        let r3 = SummaryReplyView::Done;
        lemma_blocks_are_fed(w, entries, i as nat);
        lemma_block_is_fed(w, entries, i);
        lemma_three_replies(s, shorter, r1, r2, r3);
        let asked = summary_actions(s, shorter);
        let alloc = w.fed(entries, i).go_on().1;
        let a = w.fed(entries, i).go_on().0.next(r1);
        let b = a.0.next(r2);
        let next = w.fed(entries, k as int).go_on().1;
        assert(summary_actions(s, w.block_replies(k)) == asked + seq![a.1, b.1, next]);
        assert(seq![first] + (asked + seq![a.1, b.1, next]) =~= (seq![first] + asked) + seq![
            a.1,
            b.1,
            next,
        ]);
        assert((w.block_actions(entries, i as nat) + seq![alloc]) + seq![a.1, b.1, next]
            =~= w.block_actions(entries, i as nat) + seq![alloc, a.1, b.1] + seq![next]);
    }
}

/// Three replies are three steps.
proof fn lemma_three_replies(
    s: SummaryView,
    replies: Seq<SummaryReplyView>,
    r1: SummaryReplyView,
    r2: SummaryReplyView,
    r3: SummaryReplyView,
)
    ensures
        ({
            let a = summary_after(s, replies).next(r1);
            let b = a.0.next(r2);
            let c = b.0.next(r3);
            &&& summary_after(s, replies + seq![r1, r2, r3]) == c.0
            &&& summary_actions(s, replies + seq![r1, r2, r3]) == summary_actions(s, replies)
                + seq![a.1, b.1, c.1]
        }),
{
    let a = summary_after(s, replies).next(r1);
    let b = a.0.next(r2);
    let c = b.0.next(r3);
    lemma_next_reply(s, replies, r1);
    lemma_next_reply(s, replies.push(r1), r2);
    lemma_next_reply(s, replies.push(r1).push(r2), r3);
    assert(replies + seq![r1, r2, r3] =~= replies.push(r1).push(r2).push(r3));
    assert(summary_actions(s, replies) + seq![a.1, b.1, c.1] =~= summary_actions(s, replies).push(
        a.1,
    ).push(b.1).push(c.1));
}

/// One more reply is one more step.
proof fn lemma_next_reply(s: SummaryView, replies: Seq<SummaryReplyView>, reply: SummaryReplyView)
    ensures
        ({
            let (t, action) = summary_after(s, replies).next(reply);
            &&& summary_after(s, replies.push(reply)) == t
            &&& summary_actions(s, replies.push(reply)) == summary_actions(s, replies).push(action)
        }),
{
    reveal(summary_after);
    reveal(summary_actions);
    assert(replies.push(reply).drop_last() =~= replies);
}

/// Where the platform does what it is asked, a summary comes out. All that the
/// platform is asked, in order: for every covered measurement a buffer for the
/// longest block, the value, and to feed the block to the digest; then the
/// digest, which is the summary.
pub proof fn law_honest_summary_comes_out(
    hash_type: u8,
    info: Seq<MeasurementInfo>,
    w: SummaryContribution,
)
    requires
        SummaryView::start(hash_type, info) is Ok,
        w.suits(covered(hash_type, info)),
    ensures
        ({
            let entries = covered(hash_type, info);
            let (s, first) = SummaryView::start(hash_type, info)->Ok_0;
            let replies = w.block_replies(entries.len()).push(SummaryReplyView::Digest(w.digest));
            &&& seq![first] + summary_actions(s, replies) == w.block_actions(entries, entries.len())
                + seq![SummaryActionView::HashFinish, SummaryActionView::Finished(w.digest)]
            &&& summary_after(s, replies).stage is Ended
            &&& summary_after(s, replies).values == w.values()
        }),
{
    let entries = covered(hash_type, info);
    let n = entries.len();
    let (s, first) = SummaryView::start(hash_type, info)->Ok_0;
    let replies = w.block_replies(n).push(SummaryReplyView::Digest(w.digest));
    lemma_blocks_are_fed(w, entries, n);
    lemma_next_reply(s, w.block_replies(n), SummaryReplyView::Digest(w.digest));
    assert(w.fed(entries, 0).values =~= Seq::<Seq<u8>>::empty());
    assert(w.values().take(n as int) =~= w.values());
    assert((s, first) == w.fed(entries, 0).go_on());
    let asked = summary_actions(s, w.block_replies(n));
    let summary = SummaryActionView::Finished(w.digest);
    assert(seq![first] + asked.push(summary) =~= (seq![first] + asked).push(summary));
    assert((w.block_actions(entries, n) + seq![SummaryActionView::HashFinish]).push(summary)
        =~= w.block_actions(entries, n) + seq![SummaryActionView::HashFinish, summary]);
}

/// How many replies a summary takes at most.
pub open spec fn summary_steps_left(s: SummaryView) -> nat {
    let left = (s.entries.len() - s.values.len()) as nat;
    match s.stage {
        SummaryStage::Allocate => 3 * left + 1,
        SummaryStage::Value => 3 * left,
        SummaryStage::Hash => 3 * left + 2,
        SummaryStage::Finish => 1,
        SummaryStage::Ended => 0,
    }
}

/// Whatever the platform replies, a summary ends after at most three replies
/// for each covered measurement and one for the digest.
pub proof fn law_summary_ends(s: SummaryView, replies: Seq<SummaryReplyView>)
    requires
        summary_in_order(s),
    ensures
        replies.len() >= summary_steps_left(s) ==> summary_after(s, replies).stage is Ended,
        summary_after(s, replies).stage is Ended || summary_steps_left(summary_after(s, replies))
            + replies.len() <= summary_steps_left(s),
    decreases replies.len(),
{
    reveal(summary_after);
    if replies.len() > 0 {
        let shorter = replies.drop_last();
        law_summary_ends(s, shorter);
        law_run_keeps_summary(s, shorter);
    }
}

/// Nothing more is asked of the platform when a summary is over.
pub proof fn law_ended_summary_stays_ended(s: SummaryView, reply: SummaryReplyView)
    requires
        s.stage is Ended,
    ensures
        s.next(reply) == (s, SummaryActionView::Failed(SpdmError::Unspecified)),
{
}

/// What a reply says is what it holds.
pub proof fn law_view_of_summary_reply(reply: SummaryReply)
    ensures
        match reply {
            SummaryReply::Done => reply@ == SummaryReplyView::Done,
            SummaryReply::Buffer(buf) => reply@ == SummaryReplyView::Buffer(buf@),
            SummaryReply::Value(value, Some(len)) => reply@ == SummaryReplyView::Value(
                value@,
                Some(len as nat),
            ),
            SummaryReply::Value(value, None) => reply@ == SummaryReplyView::Value(value@, None),
            SummaryReply::Digest(digest) => reply@ == SummaryReplyView::Digest(digest@),
            SummaryReply::Failed(code) => reply@ == SummaryReplyView::Failed(code),
        },
{
}

/// What an action says is what it holds.
pub proof fn law_view_of_summary_action(action: SummaryAction)
    ensures
        match action {
            SummaryAction::Allocate(len) => action@ == SummaryActionView::Allocate(len as nat),
            SummaryAction::ReadValue { index, size } => action@ == SummaryActionView::ReadValue {
                index,
                size,
            },
            SummaryAction::HashInit(block) => action@ == SummaryActionView::HashInit(block@),
            SummaryAction::HashUpdate(block) => action@ == SummaryActionView::HashUpdate(block@),
            SummaryAction::HashFinish => action@ == SummaryActionView::HashFinish,
            SummaryAction::Finished(digest) => action@ == SummaryActionView::Finished(digest@),
            SummaryAction::Failed(error) => action@ == SummaryActionView::Failed(error),
        },
{
}

/// The measurements that a summary covers keep their order, each as often as
/// it occurs: one more measurement comes behind the others where the summary
/// covers it, and else changes nothing. A summary over the trusted computing
/// base covers what belongs to it, and a summary over all covers everything.
pub proof fn law_coverage_keeps_order(info: Seq<MeasurementInfo>, entry: MeasurementInfo)
    ensures
        covered(1, Seq::empty()) == Seq::<MeasurementInfo>::empty(),
        covered(1, info.push(entry)) == (if entry.is_tcb {
            covered(1, info).push(entry)
        } else {
            covered(1, info)
        }),
        covered(255, Seq::empty()) == Seq::<MeasurementInfo>::empty(),
        covered(255, info.push(entry)) == covered(255, info).push(entry),
{
    reveal(Seq::filter);
    assert(info.push(entry).drop_last() =~= info);
}

/// Where every measurement belongs to the trusted computing base, a summary
/// over it is one over all.
pub proof fn law_trusted_base_of_everything(info: Seq<MeasurementInfo>)
    requires
        forall|i: int| 0 <= i < info.len() ==> (#[trigger] info[i]).is_tcb,
    ensures
        covered(1, info) == info,
        covered(255, info) == info,
    decreases info.len(),
{
    if info.len() > 0 {
        let shorter = info.drop_last();
        assert forall|i: int| 0 <= i < shorter.len() implies (#[trigger] shorter[i]).is_tcb by {
            assert(info[i].is_tcb);
        }
        law_trusted_base_of_everything(shorter);
        law_coverage_keeps_order(shorter, info.last());
        assert(shorter.push(info.last()) =~= info);
        assert(info[info.len() - 1].is_tcb);
    } else {
        law_coverage_keeps_order(info, MeasurementInfo {
            index: 1,
            value_size: 0,
            value_type: 0,
            is_raw: false,
            is_tcb: true,
        });
        assert(info =~= Seq::<MeasurementInfo>::empty());
    }
}

/// Which summaries there are, and how each begins: with a buffer for the
/// longest block of the first covered measurement.
pub proof fn law_summary_begins(hash_type: u8, info: Seq<MeasurementInfo>)
    ensures
        match SummaryView::start(hash_type, info) {
            Ok((s, action)) => {
                &&& hash_type == 1 || hash_type == 255
                &&& s.entries == covered(hash_type, info)
                &&& s.entries.len() > 0
                &&& s.values.len() == 0
                &&& s.stage == SummaryStage::Allocate
                &&& action == SummaryActionView::Allocate((7 + s.entries[0].value_size) as nat)
            },
            Err(SpdmError::InvalidRequest) => hash_type != 1 && hash_type != 255,
            Err(SpdmError::Unspecified) => (hash_type == 1 || hash_type == 255) && covered(
                hash_type,
                info,
            ).len() == 0,
            Err(_) => false,
        },
{
}

/// When the platform fails, its own code is reported for the digest; for
/// everything else the error does not tell.
pub proof fn law_summary_failure_is_reported(s: SummaryView, code: u32)
    ensures
        s.next(SummaryReplyView::Failed(code)).0.stage == SummaryStage::Ended,
        s.next(SummaryReplyView::Failed(code)).1 == SummaryActionView::Failed(
            match s.stage {
                SummaryStage::Hash | SummaryStage::Finish => SpdmError::Platform(code),
                _ => SpdmError::Unspecified,
            },
        ),
{
}

/// A reply that does not answer what was asked ends the summary.
pub proof fn law_stray_reply_ends_summary(s: SummaryView, reply: SummaryReplyView)
    requires
        !(reply is Failed),
        match s.stage {
            SummaryStage::Allocate => !(reply is Buffer),
            SummaryStage::Value => !(reply is Value),
            SummaryStage::Hash => !(reply is Done),
            SummaryStage::Finish => !(reply is Digest),
            SummaryStage::Ended => true,
        },
    ensures
        s.next(reply).0.stage == SummaryStage::Ended,
        s.next(reply).1 == SummaryActionView::Failed(SpdmError::Unspecified),
{
}

/// A buffer that holds the longest block leads to the measurement, and a
/// shorter one is refused.
pub proof fn law_block_buffer_is_taken(s: SummaryView, buf: Seq<u8>)
    requires
        s.stage == SummaryStage::Allocate,
    ensures
        ({
            let (t, action) = s.next(SummaryReplyView::Buffer(buf));
            let entry = s.entries[s.values.len() as int];
            if buf.len() >= 7 + entry.value_size {
                &&& t == (SummaryView { stage: SummaryStage::Value, ..s })
                &&& action == SummaryActionView::ReadValue {
                    index: entry.index,
                    size: entry.value_size,
                }
            } else {
                &&& t.stage == SummaryStage::Ended
                &&& action == SummaryActionView::Failed(SpdmError::Unspecified)
            }
        }),
{
}

/// A value is taken exactly when the measurement left as many bytes as it was
/// asked for, and reported a length that is no more than those and than a
/// block can count. Its block goes to the digest: the first begins it.
pub proof fn law_summary_value_is_taken(
    s: SummaryView,
    bytes: Seq<u8>,
    reported: Option<nat>,
)
    requires
        s.stage == SummaryStage::Value,
    ensures
        ({
            let (t, action) = s.next(SummaryReplyView::Value(bytes, reported));
            let entry = s.entries[s.values.len() as int];
            if reported is Some && reported->0 <= entry.value_size && reported->0 <= 65532
                && bytes.len() == entry.value_size {
                let value = bytes.take(reported->0 as int);
                &&& t == (SummaryView {
                    stage: SummaryStage::Hash,
                    values: s.values.push(value),
                    ..s
                })
                &&& feeds(action, s.values.len() == 0, entry, value)
            } else {
                &&& t.stage == SummaryStage::Ended
                &&& action == SummaryActionView::Failed(SpdmError::Unspecified)
            }
        }),
{
    let entry = s.entries[s.values.len() as int];
    if reported is Some && reported->0 <= entry.value_size && reported->0 <= 65532 && bytes.len()
        == entry.value_size {
        law_block_tells_measurement(entry, bytes.take(reported->0 as int));
    }
}

/// Whether an action feeds the block of a measurement to the digest, and
/// nothing else.
pub open spec fn feeds(
    action: SummaryActionView,
    first: bool,
    entry: MeasurementInfo,
    value: Seq<u8>,
) -> bool {
    match action {
        SummaryActionView::HashInit(block) => {
            &&& first
            &&& block.len() == 7 + value.len()
            &&& has_block(block, 0, entry, value)
        },
        SummaryActionView::HashUpdate(block) => {
            &&& !first
            &&& block.len() == 7 + value.len()
            &&& has_block(block, 0, entry, value)
        },
        _ => false,
    }
}

/// With a block in the digest, the next measurement is turned to, or the
/// digest is asked for; and the digest is the summary, as it came.
pub proof fn law_summary_goes_on(s: SummaryView, digest: Seq<u8>)
    ensures
        s.stage == SummaryStage::Hash && s.values.len() < s.entries.len() ==> s.next(
            SummaryReplyView::Done,
        ) == (
            SummaryView { stage: SummaryStage::Allocate, ..s },
            SummaryActionView::Allocate(
                (7 + s.entries[s.values.len() as int].value_size) as nat,
            ),
        ),
        s.stage == SummaryStage::Hash && s.values.len() >= s.entries.len() ==> s.next(
            SummaryReplyView::Done,
        ) == (SummaryView { stage: SummaryStage::Finish, ..s }, SummaryActionView::HashFinish),
        s.stage == SummaryStage::Finish ==> s.next(SummaryReplyView::Digest(digest)) == (
            SummaryView { stage: SummaryStage::Ended, ..s },
            SummaryActionView::Finished(digest),
        ),
{
}

/// A summary goes on reply by reply, one action for each.
pub proof fn law_summaries_go_step_by_step(
    s: SummaryView,
    replies: Seq<SummaryReplyView>,
    reply: SummaryReplyView,
)
    ensures
        summary_after(s, Seq::empty()) == s,
        summary_actions(s, Seq::empty()) == Seq::<SummaryActionView>::empty(),
        summary_after(s, replies.push(reply)) == summary_after(s, replies).next(reply).0,
        summary_actions(s, replies.push(reply)) == summary_actions(s, replies).push(
            summary_after(s, replies).next(reply).1,
        ),
{
    reveal(summary_after);
    reveal(summary_actions);
    assert(replies.push(reply).drop_last() =~= replies);
}

/// Whether the `k`-th covered measurement was read and its block fed: a buffer
/// and the value were replied, and the value's block went to the digest.
pub open spec fn was_fed(
    entry: MeasurementInfo,
    replies: Seq<SummaryReplyView>,
    actions: Seq<SummaryActionView>,
    k: int,
) -> bool {
    let read = replies[3 * k + 1];
    &&& replies[3 * k] is Buffer
    &&& actions[3 * k] == SummaryActionView::ReadValue {
        index: entry.index,
        size: entry.value_size,
    }
    &&& read is Value
    &&& read->Value_0.len() == entry.value_size
    &&& read->Value_1 is Some
    &&& read->Value_1->0 <= entry.value_size
    &&& feeds(
        actions[3 * k + 1],
        k == 0,
        entry,
        read->Value_0.take(read->Value_1->0 as int),
    )
}

/// Whether the `k`-th value is of a measurement whose block was fed.
spec fn was_fed_to(
    s: SummaryView,
    replies: Seq<SummaryReplyView>,
    actions: Seq<SummaryActionView>,
    k: int,
) -> bool {
    was_fed(s.entries[k], replies, actions, k)
}

/// Where a summary stands after some replies.
spec fn stands_at(
    s: SummaryView,
    replies: Seq<SummaryReplyView>,
    actions: Seq<SummaryActionView>,
) -> bool {
    let n = s.values.len() as int;
    &&& actions.len() == replies.len()
    &&& !(s.stage is Ended) ==> {
        &&& n <= s.entries.len()
        &&& replies.len() == (match s.stage {
            SummaryStage::Value => 3 * n + 1,
            SummaryStage::Hash => 3 * n - 1,
            _ => 3 * n,
        })
        &&& s.stage is Value ==> {
            &&& n < s.entries.len()
            &&& replies.last() is Buffer
            &&& actions.last() == SummaryActionView::ReadValue {
                index: s.entries[n].index,
                size: s.entries[n].value_size,
            }
        }
        &&& s.stage is Allocate ==> n < s.entries.len()
        &&& s.stage is Finish ==> n == s.entries.len()
        &&& s.stage is Hash ==> n > 0
        &&& forall|k: int|
            0 <= k < n ==> #[trigger] was_fed_to(s, replies, actions, k)
    }
}

/// One step of a summary.
proof fn lemma_stands_on(
    s: SummaryView,
    reply: SummaryReplyView,
    replies: Seq<SummaryReplyView>,
    actions: Seq<SummaryActionView>,
)
    requires
        stands_at(s, replies, actions),
    ensures
        stands_at(s.next(reply).0, replies.push(reply), actions.push(s.next(reply).1)),
{
    let (t, action) = s.next(reply);
    let all = replies.push(reply);
    let asked = actions.push(action);
    if s.stage is Value && reply is Value {
        law_summary_value_is_taken(s, reply->Value_0, reply->Value_1);
    }
    if !(t.stage is Ended) {
        assert forall|k: int| 0 <= k < t.values.len() implies #[trigger] was_fed_to(
            t,
            all,
            asked,
            k,
        ) by {
            if k < s.values.len() {
                assert(was_fed_to(s, replies, actions, k));
                assert(all[3 * k] == replies[3 * k] && all[3 * k + 1] == replies[3 * k + 1]);
                assert(asked[3 * k] == actions[3 * k] && asked[3 * k + 1] == actions[3 * k + 1]);
            } else {
                assert(all[3 * k + 1] == reply && asked[3 * k + 1] == action);
                assert(all[3 * k] == replies.last() && asked[3 * k] == actions.last());
            }
        }
    }
}

proof fn lemma_summary_stands(
    hash_type: u8,
    info: Seq<MeasurementInfo>,
    replies: Seq<SummaryReplyView>,
)
    requires
        SummaryView::start(hash_type, info) is Ok,
    ensures
        ({
            let start = SummaryView::start(hash_type, info)->Ok_0.0;
            let s = summary_after(start, replies);
            &&& stands_at(s, replies, summary_actions(start, replies))
            &&& s.entries == covered(hash_type, info)
        }),
    decreases replies.len(),
{
    let start = SummaryView::start(hash_type, info)->Ok_0.0;
    if replies.len() == 0 {
        law_summaries_go_step_by_step(start, replies, SummaryReplyView::Done);
        assert(replies =~= Seq::<SummaryReplyView>::empty());
    } else {
        let shorter = replies.drop_last();
        lemma_summary_stands(hash_type, info, shorter);
        law_summaries_go_step_by_step(start, shorter, replies.last());
        assert(shorter.push(replies.last()) =~= replies);
        lemma_stands_on(
            summary_after(start, shorter),
            replies.last(),
            shorter,
            summary_actions(start, shorter),
        );
        law_run_keeps_summary(start, replies);
    }
}

/// Whatever the platform replies, the digest is asked for when every covered
/// measurement was read once, in the order of the measurements, and the block
/// of each value was fed to the digest as soon as the value was there.
pub proof fn law_summary_digests_what_was_read(
    hash_type: u8,
    info: Seq<MeasurementInfo>,
    replies: Seq<SummaryReplyView>,
)
    requires
        SummaryView::start(hash_type, info) is Ok,
        replies.len() > 0,
        summary_actions(SummaryView::start(hash_type, info)->Ok_0.0, replies).last() is HashFinish,
    ensures
        ({
            let start = SummaryView::start(hash_type, info)->Ok_0.0;
            let actions = summary_actions(start, replies);
            let entries = covered(hash_type, info);
            &&& replies.len() == 3 * entries.len()
            &&& actions.len() == replies.len()
            &&& forall|k: int|
                0 <= k < entries.len() ==> was_fed(#[trigger] entries[k], replies, actions, k)
        }),
{
    let start = SummaryView::start(hash_type, info)->Ok_0.0;
    let shorter = replies.drop_last();
    let s = summary_after(start, replies);
    let entries = covered(hash_type, info);
    let actions = summary_actions(start, replies);
    lemma_summary_stands(hash_type, info, replies);
    lemma_summary_stands(hash_type, info, shorter);
    law_summaries_go_step_by_step(start, shorter, replies.last());
    assert(shorter.push(replies.last()) =~= replies);
    assert(s.stage is Finish);
    assert forall|k: int| 0 <= k < entries.len() implies was_fed(
        #[trigger] entries[k],
        replies,
        actions,
        k,
    ) by {
        assert(was_fed_to(s, replies, actions, k));
    }
}

/// There is a summary over the trusted computing base and one over all.
pub proof fn law_summary_types(hash_type: u8)
    ensures
        valid_summary_type(hash_type) <==> hash_type == 1 || hash_type == 255,
{
}

} // verus!
