//! What the bytes of blocks, records and messages tell, byte by byte.
use crate::block::{
    accepted_len, block_bytes, block_capacity, blocks_len, first_with_index,
    lemma_record_capacity_bound, lemma_record_capacity_grows, lemma_record_len, record_bytes,
    record_capacity, reported_len, selection, valid_index, valid_measurements, value_fits,
    values_fit,
};
use crate::response::ResponseView;
use crate::spdm::{MeasurementInfo, Phase, SpdmVersion};
use crate::wire::{law_fields_are_little_endian, le16, le24};
use vstd::prelude::*;

verus! {

/// The byte of a version in a message.
pub open spec fn version_number(version: SpdmVersion) -> int {
    match version {
        SpdmVersion::V10 => 16,
        SpdmVersion::V11 => 17,
        SpdmVersion::V12 => 18,
        SpdmVersion::V13 => 19,
        SpdmVersion::V14 => 20,
    }
}

/// Versions are told by their major and minor numbers, and those from 1.3 on
/// carry a requester context.
pub proof fn law_versions(version: SpdmVersion)
    ensures
        version.byte() == version_number(version),
        version.carries_context() <==> version == SpdmVersion::V13 || version == SpdmVersion::V14,
{
}

/// Measurements are served in every phase but those in front of the
/// negotiation of algorithms.
pub proof fn law_phases(phase: Phase)
    ensures
        phase.is_negotiated() <==> phase != Phase::NotStarted && phase != Phase::AfterVersion
            && phase != Phase::AfterCapabilities,
{
}

/// Whether the block of a measurement with a value lies in some bytes.
pub open spec fn has_block(
    bytes: Seq<u8>,
    at: int,
    entry: MeasurementInfo,
    value: Seq<u8>,
) -> bool {
    &&& 0 <= at
    &&& at + 7 + value.len() <= bytes.len()
    &&& bytes[at] == entry.index
    &&& bytes[at + 1] == 1
    &&& bytes[at + 2] + 256 * bytes[at + 3] == value.len() + 3
    &&& bytes[at + 4] % 128 == entry.value_type % 128
    &&& bytes[at + 4] >= 128 <==> entry.is_raw
    &&& bytes[at + 5] + 256 * bytes[at + 6] == value.len()
    &&& forall|i: int| 0 <= i < value.len() ==> bytes[at + 7 + i] == #[trigger] value[i]
}

/// A block tells the index of its measurement, that the value is laid out the
/// DMTF way, what kind of value it is and whether it is raw, both lengths, and
/// the value byte for byte; and there is nothing else in it.
pub proof fn law_block_tells_measurement(entry: MeasurementInfo, value: Seq<u8>)
    requires
        value.len() <= 65532,
    ensures
        block_bytes(entry, value).len() == 7 + value.len(),
        block_bytes(entry, value)[0] == entry.index,
        has_block(block_bytes(entry, value), 0, entry, value),
{
    law_fields_are_little_endian(value.len());
    law_fields_are_little_endian(value.len() + 3);
    let b = block_bytes(entry, value);
    assert(b[2] == le16(value.len() + 3)[0] && b[3] == le16(value.len() + 3)[1]);
    assert(b[5] == le16(value.len())[0] && b[6] == le16(value.len())[1]);
}

/// A record of no values is empty, and one more value adds its block behind
/// the others.
pub proof fn law_record_grows_by_blocks(
    entries: Seq<MeasurementInfo>,
    values: Seq<Seq<u8>>,
    value: Seq<u8>,
)
    ensures
        record_bytes(entries, Seq::empty()) == Seq::<u8>::empty(),
        record_bytes(entries, values.push(value)) == record_bytes(entries, values) + block_bytes(
            entries[values.len() as int],
            value,
        ),
        blocks_len(Seq::empty()) == 0,
        blocks_len(values.push(value)) == blocks_len(values) + 7 + value.len(),
{
    assert(values.push(value).drop_last() =~= values);
}

/// The most bytes that a record can take are a header and the longest value
/// for each measurement.
pub proof fn law_capacity_grows_by_blocks(
    entries: Seq<MeasurementInfo>,
    entry: MeasurementInfo,
)
    ensures
        block_capacity(entry) == 7 + entry.value_size,
        record_capacity(Seq::empty()) == 0,
        record_capacity(entries.push(entry)) == record_capacity(entries) + 7 + entry.value_size,
{
    assert(entries.push(entry).drop_last() =~= entries);
}

/// A value can stand in a block exactly when it is no longer than its
/// measurement may have and than the block's length field can count; a length
/// is taken exactly when it was reported and is that of such a value.
pub proof fn law_lengths_that_are_taken(
    entry: MeasurementInfo,
    reported: Option<usize>,
    entries: Seq<MeasurementInfo>,
    values: Seq<Seq<u8>>,
)
    ensures
        match reported {
            Some(len) => accepted_len(entry, reported_len(reported)) == (if len <= entry.value_size
                && len <= 65532 {
                Some(len as nat)
            } else {
                None::<nat>
            }),
            None => accepted_len(entry, reported_len(reported)) is None,
        },
        forall|len: nat| #[trigger]
            value_fits(entry, len) <==> len <= entry.value_size && len <= 65532,
        values_fit(entries, values) <==> values.len() <= entries.len() && forall|i: int|
            0 <= i < values.len() ==> (#[trigger] values[i]).len() <= entries[i].value_size
                && values[i].len() <= 65532,
{
    if values.len() <= entries.len() {
        if values_fit(entries, values) {
            assert forall|i: int| 0 <= i < values.len() implies (#[trigger] values[i]).len()
                <= entries[i].value_size && values[i].len() <= 65532 by {
                assert(value_fits(entries[i], values[i].len()));
            }
        }
    }
}

/// Measurements can be reported exactly when there are at most 254 of them and
/// their indices are neither that of the count query nor that of all.
pub proof fn law_measurements_that_can_be_reported(info: Seq<MeasurementInfo>)
    ensures
        valid_measurements(info) <==> info.len() <= 254 && forall|i: int|
            0 <= i < info.len() ==> 1 <= (#[trigger] info[i]).index <= 254,
{
    if valid_measurements(info) {
        assert forall|i: int| 0 <= i < info.len() implies 1 <= (#[trigger] info[i]).index <= 254 by {
            assert(valid_index(info[i].index));
        }
    }
}

/// Whether a measurement is the first that has an index.
pub open spec fn is_first(info: Seq<MeasurementInfo>, index: u8, i: int) -> bool {
    &&& 0 <= i < info.len()
    &&& info[i].index == index
    &&& forall|j: int| 0 <= j < i ==> (#[trigger] info[j]).index != index
}

/// The measurement that is found is the first that has the index.
pub proof fn law_first_is_found(info: Seq<MeasurementInfo>, index: u8)
    ensures
        match first_with_index(info, index) {
            Some(entry) => exists|i: int| #[trigger] is_first(info, index, i) && info[i] == entry,
            None => forall|i: int| 0 <= i < info.len() ==> (#[trigger] info[i]).index != index,
        },
    decreases info.len(),
{
    if info.len() > 0 {
        let shorter = info.drop_last();
        law_first_is_found(shorter, index);
        match first_with_index(shorter, index) {
            Some(entry) => {
                let i = choose|i: int| #[trigger] is_first(shorter, index, i) && shorter[i] == entry;
                assert forall|j: int| 0 <= j < i implies (#[trigger] info[j]).index != index by {
                    assert(shorter[j].index != index);
                }
                assert(is_first(info, index, i));
            },
            None => {
                let last = info.len() - 1;
                assert forall|j: int| 0 <= j < last implies (#[trigger] info[j]).index != index by {
                    assert(shorter[j].index != index);
                }
                if info[last].index == index {
                    assert(is_first(info, index, last));
                }
            },
        }
    }
}

/// What an operation selects: nothing for the count, everything for all, and
/// for an index the first measurement that has it.
pub proof fn law_selection(info: Seq<MeasurementInfo>, meas_op: u8)
    ensures
        meas_op == 0 ==> selection(info, meas_op) == Some(Seq::<MeasurementInfo>::empty()),
        meas_op == 255 ==> selection(info, meas_op) == Some(info),
        meas_op != 0 && meas_op != 255 ==> match selection(info, meas_op) {
            Some(entries) => entries.len() == 1 && exists|i: int| #[trigger]
                is_first(info, meas_op, i) && info[i] == entries[0],
            None => forall|i: int| 0 <= i < info.len() ==> (#[trigger] info[i]).index != meas_op,
        },
{
    law_first_is_found(info, meas_op);
}

/// Blocks lie one behind the other in their record.
proof fn lemma_blocks_in_record(entries: Seq<MeasurementInfo>, values: Seq<Seq<u8>>, k: int)
    requires
        values_fit(entries, values),
        0 <= k < values.len(),
    ensures
        ({
            let at = blocks_len(values.take(k)) as int;
            let end = at + 7 + values[k].len();
            &&& record_bytes(entries, values).len() == blocks_len(values)
            &&& end <= record_bytes(entries, values).len()
            &&& record_bytes(entries, values).subrange(at, end) == block_bytes(entries[k], values[k])
        }),
    decreases values.len(),
{
    let shorter = values.drop_last();
    let record = record_bytes(entries, values);
    let n = values.len() - 1;
    assert forall|i: int| 0 <= i < shorter.len() implies value_fits(
        entries[i],
        #[trigger] shorter[i].len(),
    ) by {
        assert(value_fits(entries[i], values[i].len()));
    }
    lemma_record_len(entries, values);
    lemma_record_len(entries, shorter);
    assert(value_fits(entries[k], values[k].len()));
    law_block_tells_measurement(entries[k], values[k]);
    if k == n {
        assert(values.take(k) =~= shorter);
        assert(record.subrange(blocks_len(shorter) as int, record.len() as int)
            =~= block_bytes(entries[k], values[k]));
    } else {
        lemma_blocks_in_record(entries, shorter, k);
        assert(shorter.take(k) =~= values.take(k));
        let at = blocks_len(values.take(k)) as int;
        let end = at + 7 + values[k].len();
        assert(record.subrange(at, end) =~= record_bytes(entries, shorter).subrange(at, end));
    }
}

/// Whether some bytes are a message without a signature: the version and the
/// response code; how many measurements there are; the slot and whether a
/// change was detected; how many blocks follow, and how many bytes of them;
/// the blocks of the values; the nonce; that there is no opaque data; and the
/// requester's context.
pub open spec fn is_message(
    m: Seq<u8>,
    version: SpdmVersion,
    total: int,
    slot_and_change: int,
    entries: Seq<MeasurementInfo>,
    values: Seq<Seq<u8>>,
    nonce: Seq<u8>,
    context: Seq<u8>,
) -> bool {
    let end = 8 + blocks_len(values) as int;
    &&& m.len() == end + 34 + context.len()
    &&& m[0] == version_number(version)
    &&& m[1] == 0x60
    &&& m[2] == total
    &&& m[3] == slot_and_change
    &&& m[4] == values.len()
    &&& m[5] + 256 * m[6] + 65536 * m[7] == blocks_len(values)
    &&& blocks_len(values.take(0)) == 0
    &&& forall|k: int|
        0 <= k < values.len() ==> {
            &&& has_block(m, 8 + blocks_len(values.take(k)) as int, entries[k], #[trigger] values[k])
            &&& blocks_len(values.take(k + 1)) == blocks_len(values.take(k)) + 7 + values[k].len()
        }
    &&& forall|i: int| 0 <= i < 32 ==> m[end + i] == #[trigger] nonce[i]
    &&& m[end + 32] == 0
    &&& m[end + 33] == 0
    &&& forall|i: int| 0 <= i < context.len() ==> m[end + 34 + i] == #[trigger] context[i]
}

/// The message of a response, byte by byte.
#[verifier::rlimit(30)]
pub proof fn law_message_bytes(response: ResponseView, nonce: Seq<u8>, values: Seq<Seq<u8>>)
    requires
        response.entries.len() <= 254,
        response.slot_id() < 8,
        nonce.len() == 32,
        values.len() == response.entries.len(),
        values_fit(response.entries, values),
    ensures
        is_message(
            response.unsigned_message(nonce, values),
            response.version,
            response.total_number_of_measurement as int,
            match response.request.signature {
                Some((_, slot_id)) => slot_id + 32,
                None => 0,
            },
            response.entries,
            values,
            nonce,
            match response.request.context {
                Some(context) => context,
                None => Seq::empty(),
            },
        ),
{
    let m = response.unsigned_message(nonce, values);
    let entries = response.entries;
    let record = record_bytes(entries, values);
    let end = 8 + record.len() as int;
    lemma_record_len(entries, values);
    lemma_record_capacity_grows(entries, values.len() as int);
    lemma_record_capacity_bound(entries);
    law_fields_are_little_endian(record.len());
    assert(values.take(0) =~= Seq::<Seq<u8>>::empty());
    assert(m[5] == le24(record.len())[0]);
    assert(m[6] == le24(record.len())[1]);
    assert(m[7] == le24(record.len())[2]);
    assert(m.subrange(8, end) =~= record);
    assert(m.subrange(end, end + 32) =~= nonce);
    assert(m.subrange(end + 34, m.len() as int) =~= response.context());
    assert forall|k: int| 0 <= k < values.len() implies {
        &&& has_block(m, 8 + blocks_len(values.take(k)) as int, entries[k], #[trigger] values[k])
        &&& blocks_len(values.take(k + 1)) == blocks_len(values.take(k)) + 7 + values[k].len()
    } by {
        lemma_block_in_message(entries, values, m, k);
    }
    assert forall|i: int| 0 <= i < 32 implies m[end + i] == #[trigger] nonce[i] by {
        assert(m.subrange(end, end + 32)[i] == nonce[i]);
    }
    assert forall|i: int| 0 <= i < response.context().len() implies m[end + 34 + i]
        == #[trigger] response.context()[i] by {
        assert(m.subrange(end + 34, m.len() as int)[i] == response.context()[i]);
    }
}

/// A block of a message's record.
proof fn lemma_block_in_message(
    entries: Seq<MeasurementInfo>,
    values: Seq<Seq<u8>>,
    m: Seq<u8>,
    k: int,
)
    requires
        values_fit(entries, values),
        0 <= k < values.len(),
        8 + record_bytes(entries, values).len() <= m.len(),
        m.subrange(8, 8 + record_bytes(entries, values).len() as int) == record_bytes(entries, values),
    ensures
        has_block(m, 8 + blocks_len(values.take(k)) as int, entries[k], values[k]),
        blocks_len(values.take(k + 1)) == blocks_len(values.take(k)) + 7 + values[k].len(),
{
    let record = record_bytes(entries, values);
    let at = blocks_len(values.take(k)) as int;
    let block = block_bytes(entries[k], values[k]);
    lemma_blocks_in_record(entries, values, k);
    assert(value_fits(entries[k], values[k].len()));
    law_block_tells_measurement(entries[k], values[k]);
    assert(values.take(k + 1).drop_last() =~= values.take(k));
    assert forall|i: int| 0 <= i < block.len() implies #[trigger] block[i] == m[8 + at + i] by {
        assert(record.subrange(at, at + block.len())[i] == record[at + i]);
        assert(m.subrange(8, 8 + record.len() as int)[at + i] == m[8 + (at + i)]);
    }
    assert(block[0] == m[8 + at] && block[1] == m[8 + at + 1] && block[2] == m[8 + at + 2]
        && block[3] == m[8 + at + 3] && block[4] == m[8 + at + 4] && block[5] == m[8 + at + 5]
        && block[6] == m[8 + at + 6]);
    assert forall|i: int| 0 <= i < values[k].len() implies m[8 + at + 7 + i]
        == #[trigger] values[k][i] by {
        assert(block[0 + 7 + i] == m[8 + at + (7 + i)]);
    }
}

/// The longest message that a response can lead to: the fixed fields, a header
/// and the longest value for each measurement, the nonce, the length of the
/// opaque data, the context of versions that carry one, and the signature
/// where one is asked for.
pub proof fn law_longest_message(response: ResponseView)
    ensures
        response.max_message_len() == 8 + record_capacity(response.entries) + 34 + (if response.version
            == SpdmVersion::V13 || response.version == SpdmVersion::V14 {
            8int
        } else {
            0
        }) + (if response.request.signature is Some {
            96int
        } else {
            0
        }),
        response.signed() <==> response.request.signature is Some,
{
}

} // verus!
