//! The measurement summary hash as a state machine: the digest over the
//! blocks of all measurements, or of those of the trusted computing base.
use crate::block::{
    accepted_len, block_bytes, block_capacity, reported_len, values_fit, write_measurement_block,
};
use crate::buffer::cleared;
use crate::error::SpdmError;
use crate::spdm::{MeasurementInfo, MEAS_BLOCK_METADATA_SIZE};
use vstd::prelude::*;

verus! {

/// Summary over the measurements of the trusted computing base.
pub const SUMMARY_TCB: u8 = 1;

/// Summary over all measurements.
pub const SUMMARY_ALL: u8 = 0xFF;

/// Whether there is a summary of this type.
pub open spec fn valid_summary_type(hash_type: u8) -> bool {
    hash_type == SUMMARY_TCB || hash_type == SUMMARY_ALL
}

/// Whether there is a summary of this type.
pub fn is_summary_type(hash_type: u8) -> (yes: bool)
    ensures
        yes == valid_summary_type(hash_type),
{
    hash_type == 1 || hash_type == 0xFF
}

/// Whether a summary covers a measurement.
pub open spec fn covers(hash_type: u8, entry: MeasurementInfo) -> bool {
    hash_type == SUMMARY_ALL || entry.is_tcb
}

/// The measurements that a summary covers, in order.
pub open spec fn covered(hash_type: u8, info: Seq<MeasurementInfo>) -> Seq<MeasurementInfo> {
    info.filter(|entry: MeasurementInfo| covers(hash_type, entry))
}

/// What the machine waits for.
#[derive(Clone, Copy, Debug, PartialEq, Eq, Structural)]
pub enum SummaryStage {
    /// A buffer for the block of the next measurement.
    Allocate,
    /// The value of the next measurement.
    Value,
    /// That the block went into the digest.
    Hash,
    /// The digest.
    Finish,
    /// Nothing: the summary is over.
    Ended,
}

/// What the platform replies when it has done what it was asked to do.
pub enum SummaryReply {
    /// The work is done, and there is nothing to tell.
    Done,
    /// A buffer for a block.
    Buffer(Vec<u8>),
    /// What the measurement left in a buffer of the asked size, and the
    /// length that it reported, or nothing where it failed.
    Value(Vec<u8>, Option<usize>),
    /// The digest.
    Digest([u8; 48]),
    /// The work failed, with the platform's own error code.
    Failed(u32),
}

/// What a [`SummaryReply`] says.
pub enum SummaryReplyView {
    Done,
    Buffer(Seq<u8>),
    Value(Seq<u8>, Option<nat>),
    Digest(Seq<u8>),
    Failed(u32),
}

impl View for SummaryReply {
    type V = SummaryReplyView;

    open spec fn view(&self) -> SummaryReplyView {
        match *self {
            SummaryReply::Done => SummaryReplyView::Done,
            SummaryReply::Buffer(buf) => SummaryReplyView::Buffer(buf@),
            SummaryReply::Value(value, reported) => SummaryReplyView::Value(
                value@,
                reported_len(reported),
            ),
            SummaryReply::Digest(digest) => SummaryReplyView::Digest(digest@),
            SummaryReply::Failed(code) => SummaryReplyView::Failed(code),
        }
    }
}

/// What the machine asks the platform to do.
pub enum SummaryAction {
    /// Allocate a buffer of at least this many bytes.
    Allocate(usize),
    /// Read the measurement with this index, of at most this many bytes, with
    /// no nonce.
    ReadValue { index: u8, size: u16 },
    /// Begin the digest with these bytes.
    HashInit(Vec<u8>),
    /// Go on with the digest of these bytes.
    HashUpdate(Vec<u8>),
    /// Give the digest.
    HashFinish,
    /// Nothing: this is the summary.
    Finished([u8; 48]),
    /// Report the error.
    Failed(SpdmError),
}

/// What a [`SummaryAction`] says.
pub enum SummaryActionView {
    Allocate(nat),
    ReadValue { index: u8, size: u16 },
    HashInit(Seq<u8>),
    HashUpdate(Seq<u8>),
    HashFinish,
    Finished(Seq<u8>),
    Failed(SpdmError),
}

impl View for SummaryAction {
    type V = SummaryActionView;

    open spec fn view(&self) -> SummaryActionView {
        match *self {
            SummaryAction::Allocate(len) => SummaryActionView::Allocate(len as nat),
            SummaryAction::ReadValue { index, size } => SummaryActionView::ReadValue {
                index,
                size,
            },
            SummaryAction::HashInit(block) => SummaryActionView::HashInit(block@),
            SummaryAction::HashUpdate(block) => SummaryActionView::HashUpdate(block@),
            SummaryAction::HashFinish => SummaryActionView::HashFinish,
            SummaryAction::Finished(digest) => SummaryActionView::Finished(digest@),
            SummaryAction::Failed(error) => SummaryActionView::Failed(error),
        }
    }
}

/// What a summary has come to.
pub struct SummaryView {
    /// The measurements that the summary covers, in order.
    pub entries: Seq<MeasurementInfo>,
    /// What the machine waits for.
    pub stage: SummaryStage,
    /// The values whose blocks went to the digest, in order.
    pub values: Seq<Seq<u8>>,
}

impl SummaryView {
    /// The machine at its start, and what it asks first; or why there is no
    /// such summary.
    pub open spec fn start(hash_type: u8, info: Seq<MeasurementInfo>) -> Result<
        (SummaryView, SummaryActionView),
        SpdmError,
    > {
        let entries = covered(hash_type, info);
        if !valid_summary_type(hash_type) {
            Err(SpdmError::InvalidRequest)
        } else if entries.len() == 0 {
            Err(SpdmError::Unspecified)
        } else {
            Ok(
                (SummaryView {
                    entries,
                    stage: SummaryStage::Allocate,
                    values: Seq::empty(),
                }).go_on(),
            )
        }
    }

    /// Gives the summary up.
    pub open spec fn fail(self, error: SpdmError) -> (SummaryView, SummaryActionView) {
        (SummaryView { stage: SummaryStage::Ended, ..self }, SummaryActionView::Failed(error))
    }

    /// Turns to the next measurement, if there is one.
    pub open spec fn go_on(self) -> (SummaryView, SummaryActionView) {
        if self.values.len() < self.entries.len() {
            (
                SummaryView { stage: SummaryStage::Allocate, ..self },
                SummaryActionView::Allocate(block_capacity(self.entries[self.values.len() as int])),
            )
        } else {
            (
                SummaryView { stage: SummaryStage::Finish, ..self },
                SummaryActionView::HashFinish,
            )
        }
    }

    /// Takes a reply: what the summary comes to, and what is asked next. A
    /// reply that does not answer what was asked ends the summary.
    pub open spec fn next(self, reply: SummaryReplyView) -> (SummaryView, SummaryActionView) {
        let entry = self.entries[self.values.len() as int];
        match (self.stage, reply) {
            (SummaryStage::Allocate, SummaryReplyView::Buffer(buf)) => if buf.len()
                < block_capacity(entry) {
                self.fail(SpdmError::Unspecified)
            } else {
                (
                    SummaryView { stage: SummaryStage::Value, ..self },
                    SummaryActionView::ReadValue { index: entry.index, size: entry.value_size },
                )
            },
            (SummaryStage::Value, SummaryReplyView::Value(bytes, reported)) => match accepted_len(
                entry,
                reported,
            ) {
                Some(len) if bytes.len() == entry.value_size => {
                    let value = bytes.take(len as int);
                    (
                        SummaryView {
                            stage: SummaryStage::Hash,
                            values: self.values.push(value),
                            ..self
                        },
                        if self.values.len() == 0 {
                            SummaryActionView::HashInit(block_bytes(entry, value))
                        } else {
                            SummaryActionView::HashUpdate(block_bytes(entry, value))
                        },
                    )
                },
                _ => self.fail(SpdmError::Unspecified),
            },
            (SummaryStage::Hash, SummaryReplyView::Done) => self.go_on(),
            (SummaryStage::Finish, SummaryReplyView::Digest(digest)) => (
                SummaryView { stage: SummaryStage::Ended, ..self },
                SummaryActionView::Finished(digest),
            ),
            (SummaryStage::Hash, SummaryReplyView::Failed(code)) => self.fail(
                SpdmError::Platform(code),
            ),
            (SummaryStage::Finish, SummaryReplyView::Failed(code)) => self.fail(
                SpdmError::Platform(code),
            ),
            _ => self.fail(SpdmError::Unspecified),
        }
    }
}

/// A measurement summary hash in progress.
pub struct Summary {
    entries: Vec<MeasurementInfo>,
    stage: SummaryStage,
    /// The buffer for a block, while the machine holds it.
    buf: Vec<u8>,
    /// How many values were read.
    taken: usize,
    values: Ghost<Seq<Seq<u8>>>,
}

impl View for Summary {
    type V = SummaryView;

    closed spec fn view(&self) -> SummaryView {
        SummaryView { entries: self.entries@, stage: self.stage, values: self.values@ }
    }
}

impl Summary {
    /// Whether the machine is in order.
    pub closed spec fn wf(&self) -> bool {
        &&& values_fit(self.entries@, self.values@)
        &&& self.taken == self.values@.len()
        &&& match self.stage {
            SummaryStage::Allocate => self.taken < self.entries@.len(),
            SummaryStage::Value => self.taken < self.entries@.len() && block_capacity(
                self.entries@[self.taken as int],
            ) <= self.buf@.len(),
            _ => true,
        }
    }

    fn fail(&mut self, error: SpdmError) -> (action: SummaryAction)
        requires
            old(self).wf(),
        ensures
            final(self).wf(),
            (final(self)@, action@) == old(self)@.fail(error),
    {
        self.stage = SummaryStage::Ended;
        SummaryAction::Failed(error)
    }

    /// Turns to the next measurement, if there is one.
    fn go_on(&mut self) -> (action: SummaryAction)
        requires
            values_fit(old(self).entries@, old(self).values@),
            old(self).taken == old(self).values@.len(),
        ensures
            final(self).wf(),
            (final(self)@, action@) == old(self)@.go_on(),
    {
        if self.taken < self.entries.len() {
            let entry: MeasurementInfo = self.entries[self.taken];
            self.stage = SummaryStage::Allocate;
            SummaryAction::Allocate(MEAS_BLOCK_METADATA_SIZE + entry.value_size as usize)
        } else {
            self.stage = SummaryStage::Finish;
            SummaryAction::HashFinish
        }
    }

    /// Takes the value of the next measurement, clears the copy of it, and
    /// hands out its block.
    fn take_value(&mut self, value: Vec<u8>, reported: Option<usize>) -> (action: SummaryAction)
        requires
            old(self).wf(),
            old(self).stage is Value,
        ensures
            final(self).wf(),
            (final(self)@, action@) == old(self)@.next(
                SummaryReplyView::Value(value@, reported_len(reported)),
            ),
    {
        let entry: MeasurementInfo = self.entries[self.taken];
        if value.len() != entry.value_size as usize {
            let _ = cleared(value);
            return self.fail(SpdmError::Unspecified);
        }
        let ghost kept = value@.take(accepted_len(entry, reported_len(reported))->0 as int);
        let mut block: Vec<u8> = Vec::new();
        core::mem::swap(&mut block, &mut self.buf);
        let result: Result<usize, SpdmError> = write_measurement_block(
            &entry,
            value.as_slice(),
            reported,
            block.as_mut_slice(),
        );
        let _ = cleared(value);
        match result {
            Ok(written) => {
                block.truncate(written);
                assert(block@ =~= block_bytes(entry, kept));
                let first: bool = self.taken == 0;
                assert(self.taken < self.entries.len());
                self.taken = self.taken + 1;
                self.values = Ghost(self.values@.push(kept));
                self.stage = SummaryStage::Hash;
                if first {
                    SummaryAction::HashInit(block)
                } else {
                    SummaryAction::HashUpdate(block)
                }
            },
            Err(error) => {
                self.stage = SummaryStage::Ended;
                SummaryAction::Failed(error)
            },
        }
    }

    /// Takes a reply, and tells what the platform is to do next.
    pub fn step(&mut self, reply: SummaryReply) -> (action: SummaryAction)
        requires
            old(self).wf(),
        ensures
            final(self).wf(),
            (final(self)@, action@) == old(self)@.next(reply@),
    {
        match (self.stage, reply) {
            (SummaryStage::Allocate, SummaryReply::Buffer(buf)) => {
                let entry: MeasurementInfo = self.entries[self.taken];
                if buf.len() < MEAS_BLOCK_METADATA_SIZE + entry.value_size as usize {
                    return self.fail(SpdmError::Unspecified);
                }
                self.buf = buf;
                self.stage = SummaryStage::Value;
                SummaryAction::ReadValue { index: entry.index, size: entry.value_size }
            },
            (SummaryStage::Value, SummaryReply::Value(value, reported)) => self.take_value(
                value,
                reported,
            ),
            (SummaryStage::Hash, SummaryReply::Done) => self.go_on(),
            (SummaryStage::Finish, SummaryReply::Digest(digest)) => {
                self.stage = SummaryStage::Ended;
                SummaryAction::Finished(digest)
            },
            (SummaryStage::Hash, SummaryReply::Failed(code)) => self.fail(
                SpdmError::Platform(code),
            ),
            (SummaryStage::Finish, SummaryReply::Failed(code)) => self.fail(
                SpdmError::Platform(code),
            ),
            _ => self.fail(SpdmError::Unspecified),
        }
    }
}

/// The measurements that a summary covers, in order.
fn covered_measurements(hash_type: u8, info: &[MeasurementInfo]) -> (entries: Vec<MeasurementInfo>)
    requires
        valid_summary_type(hash_type),
    ensures
        entries@ == covered(hash_type, info@),
{
    let mut entries: Vec<MeasurementInfo> = Vec::new();
    let len: usize = info.len();
    let mut i: usize = 0;
    proof {
        reveal(Seq::filter);
    }
    while i < len
        invariant
            i <= len == info@.len(),
            entries@ == covered(hash_type, info@.take(i as int)),
        decreases len - i,
    {
        let entry: MeasurementInfo = info[i];
        proof {
            reveal(Seq::filter);
            assert(info@.take(i + 1).drop_last() =~= info@.take(i as int));
        }
        if hash_type == 0xFF || entry.is_tcb {
            entries.push(entry);
        }
        i += 1;
    }
    assert(info@.take(len as int) =~= info@);
    entries
}

/// Begins a measurement summary hash: the machine that takes it, and what the
/// platform is to do first; or why there is no such summary.
pub fn measurement_summary_hash(hash_type: u8, info: &[MeasurementInfo]) -> (r: Result<
    (Summary, SummaryAction),
    SpdmError,
>)
    ensures
        match r {
            Ok((summary, action)) => {
                &&& summary.wf()
                &&& SummaryView::start(hash_type, info@) == Ok::<
                    (SummaryView, SummaryActionView),
                    SpdmError,
                >((summary@, action@))
            },
            Err(e) => SummaryView::start(hash_type, info@) == Err::<
                (SummaryView, SummaryActionView),
                SpdmError,
            >(e),
        },
{
    if !is_summary_type(hash_type) {
        return Err(SpdmError::InvalidRequest);
    }
    let entries: Vec<MeasurementInfo> = covered_measurements(hash_type, info);
    if entries.len() == 0 {
        return Err(SpdmError::Unspecified);
    }
    let mut summary: Summary = Summary {
        entries,
        stage: SummaryStage::Allocate,
        buf: Vec::new(),
        taken: 0,
        values: Ghost(Seq::empty()),
    };
    let action: SummaryAction = summary.go_on();
    Ok((summary, action))
}

} // verus!
