//! Measurement blocks and records: which measurements an operation selects,
//! how long their record can get, and how a block is laid out.
use crate::buffer::{splice, write_into_slice};
use crate::error::SpdmError;
use crate::spdm::{
    MeasurementInfo, DMTF_VALUE_HEADER_SIZE, MAX_BLOCK_VALUE_SIZE, MEASUREMENT_SPECIFICATION_DMTF,
    MEAS_BLOCK_METADATA_SIZE, MEAS_OP_ALL, MEAS_OP_COUNT, SPDM_MAX_MEASUREMENT_RECORD_SIZE,
};
use crate::wire::{law_le16_reads_back, le16, le_u16_as_bytes, le_value};
use vstd::prelude::*;

verus! {

/// The first measurement with the index.
pub open spec fn first_with_index(info: Seq<MeasurementInfo>, index: u8) -> Option<MeasurementInfo>
    decreases info.len(),
{
    if info.len() == 0 {
        None
    } else {
        match first_with_index(info.drop_last(), index) {
            Some(entry) => Some(entry),
            None => if info.last().index == index {
                Some(info.last())
            } else {
                None
            },
        }
    }
}

/// The measurements that an operation asks for: none where it asks for the
/// number of measurements, all of them, or the first with the given index.
pub open spec fn selection(info: Seq<MeasurementInfo>, meas_op: u8) -> Option<
    Seq<MeasurementInfo>,
> {
    if meas_op == MEAS_OP_COUNT {
        Some(Seq::empty())
    } else if meas_op == MEAS_OP_ALL {
        Some(info)
    } else {
        match first_with_index(info, meas_op) {
            Some(entry) => Some(seq![entry]),
            None => None,
        }
    }
}

/// The most bytes that the block of a measurement can take.
pub open spec fn block_capacity(entry: MeasurementInfo) -> nat {
    MEAS_BLOCK_METADATA_SIZE as nat + entry.value_size as nat
}

/// The most bytes that the record of some measurements can take.
pub open spec fn record_capacity(entries: Seq<MeasurementInfo>) -> nat
    decreases entries.len(),
{
    if entries.len() == 0 {
        0
    } else {
        record_capacity(entries.drop_last()) + block_capacity(entries.last())
    }
}

/// Whether an index can name a measurement: 0 asks for the count, and 0xFF
/// for all.
pub open spec fn valid_index(index: u8) -> bool {
    index != MEAS_OP_COUNT && index != MEAS_OP_ALL
}

/// Whether a platform's measurements can be reported: fewer than 0xFF of
/// them, each with an index that can name it.
pub open spec fn valid_measurements(info: Seq<MeasurementInfo>) -> bool {
    &&& info.len() < 0xFF
    &&& forall|i: int| 0 <= i < info.len() ==> valid_index(#[trigger] info[i].index)
}

/// The byte that tells what a value is: the kind in the low seven bits, and
/// the top bit for a raw bit stream.
pub open spec fn value_type_byte(entry: MeasurementInfo) -> u8 {
    if entry.is_raw {
        (entry.value_type % 128 + 128) as u8
    } else {
        entry.value_type % 128
    }
}

/// A measurement block in front of its value.
pub open spec fn block_header_bytes(entry: MeasurementInfo, value_len: nat) -> Seq<u8> {
    seq![entry.index, MEASUREMENT_SPECIFICATION_DMTF] + le16(value_len + DMTF_VALUE_HEADER_SIZE as nat)
        + seq![value_type_byte(entry)] + le16(value_len)
}

/// A measurement block.
pub open spec fn block_bytes(entry: MeasurementInfo, value: Seq<u8>) -> Seq<u8> {
    block_header_bytes(entry, value.len()) + value
}

/// The blocks of the first measurements, one for each value.
pub open spec fn record_bytes(entries: Seq<MeasurementInfo>, values: Seq<Seq<u8>>) -> Seq<u8>
    decreases values.len(),
{
    if values.len() == 0 {
        Seq::empty()
    } else {
        record_bytes(entries, values.drop_last()) + block_bytes(
            entries[values.len() - 1],
            values.last(),
        )
    }
}

/// Whether a value can stand in the block of a measurement.
pub open spec fn value_fits(entry: MeasurementInfo, value_len: nat) -> bool {
    value_len <= entry.value_size && value_len <= MAX_BLOCK_VALUE_SIZE
}

/// Whether the values can stand in the blocks of the first measurements.
pub open spec fn values_fit(entries: Seq<MeasurementInfo>, values: Seq<Seq<u8>>) -> bool {
    &&& values.len() <= entries.len()
    &&& forall|i: int|
        0 <= i < values.len() ==> value_fits(entries[i], #[trigger] values[i].len())
}

/// The length that a provider reported, where it did and a block of the
/// measurement can carry a value of that length.
pub open spec fn accepted_len(entry: MeasurementInfo, reported: Option<nat>) -> Option<nat> {
    match reported {
        Some(len) => if value_fits(entry, len) {
            Some(len)
        } else {
            None
        },
        None => None,
    }
}

/// The length that a provider reported.
pub open spec fn reported_len(reported: Option<usize>) -> Option<nat> {
    match reported {
        Some(len) => Some(len as nat),
        None => None,
    }
}

/// The length of the blocks of some values: a header and the value each.
pub open spec fn blocks_len(values: Seq<Seq<u8>>) -> nat
    decreases values.len(),
{
    if values.len() == 0 {
        0
    } else {
        blocks_len(values.drop_last()) + MEAS_BLOCK_METADATA_SIZE as nat + values.last().len()
    }
}

/// A record is as long as its blocks together, and no longer than the record
/// of these measurements can get.
pub proof fn lemma_record_len(entries: Seq<MeasurementInfo>, values: Seq<Seq<u8>>)
    requires
        values_fit(entries, values),
    ensures
        record_bytes(entries, values).len() == blocks_len(values),
        record_bytes(entries, values).len() <= record_capacity(entries.take(values.len() as int)),
    decreases values.len(),
{
    if values.len() > 0 {
        let n = values.len() as int;
        let shorter = values.drop_last();
        assert(forall|i: int| 0 <= i < shorter.len() ==> #[trigger] shorter[i] == values[i]);
        lemma_record_len(entries, shorter);
        assert(entries.take(n).drop_last() =~= entries.take(n - 1));
        assert(value_fits(entries[n - 1], values[n - 1].len()));
    }
}

/// Leaving out measurements at the end does not make a record longer.
pub proof fn lemma_record_capacity_grows(entries: Seq<MeasurementInfo>, n: int)
    requires
        0 <= n <= entries.len(),
    ensures
        record_capacity(entries.take(n)) <= record_capacity(entries),
    decreases entries.len(),
{
    if n == entries.len() {
        assert(entries.take(n) =~= entries);
    } else {
        assert(entries.drop_last().take(n) =~= entries.take(n));
        lemma_record_capacity_grows(entries.drop_last(), n);
    }
}

/// A block takes at most its header and the longest value that 16 bits can
/// tell the length of.
pub proof fn lemma_record_capacity_bound(entries: Seq<MeasurementInfo>)
    ensures
        record_capacity(entries) <= entries.len() * 65542,
    decreases entries.len(),
{
    if entries.len() > 0 {
        lemma_record_capacity_bound(entries.drop_last());
    }
}

/// The number of measurements, where a platform's measurements can be
/// reported.
pub fn total_measurement_count(info: &[MeasurementInfo]) -> (r: Result<u8, SpdmError>)
    ensures
        match r {
            Ok(count) => valid_measurements(info@) && count == info@.len(),
            Err(e) => !valid_measurements(info@) && e == SpdmError::Unspecified,
        },
{
    let len: usize = info.len();
    if len >= 0xFF {
        return Err(SpdmError::Unspecified);
    }
    let mut i: usize = 0;
    while i < len
        invariant
            i <= len == info@.len(),
            forall|j: int| 0 <= j < i ==> valid_index(#[trigger] info@[j].index),
        decreases len - i,
    {
        if info[i].index == 0 || info[i].index == 0xFF {
            assert(!valid_index(info@[i as int].index));
            return Err(SpdmError::Unspecified);
        }
        i += 1;
    }
    Ok(len as u8)
}

/// The first measurement with the index.
pub fn find_measurement(info: &[MeasurementInfo], index: u8) -> (r: Option<MeasurementInfo>)
    ensures
        r == first_with_index(info@, index),
{
    let len: usize = info.len();
    let mut i: usize = 0;
    while i < len
        invariant
            i <= len == info@.len(),
            first_with_index(info@.take(i as int), index) is None,
        decreases len - i,
    {
        assert(info@.take(i + 1).drop_last() =~= info@.take(i as int));
        if info[i].index == index {
            proof {
                lemma_first_with_index_is_stable(info@, index, i + 1);
            }
            return Some(info[i]);
        }
        i += 1;
    }
    assert(info@.take(len as int) =~= info@);
    None
}

/// A measurement found among the first `n` is the first of all.
proof fn lemma_first_with_index_is_stable(info: Seq<MeasurementInfo>, index: u8, n: int)
    requires
        0 <= n <= info.len(),
        first_with_index(info.take(n), index) is Some,
    ensures
        first_with_index(info, index) == first_with_index(info.take(n), index),
    decreases info.len(),
{
    if n == info.len() {
        assert(info.take(n) =~= info);
    } else {
        assert(info.drop_last().take(n) =~= info.take(n));
        lemma_first_with_index_is_stable(info.drop_last(), index, n);
    }
}

/// The measurements that an operation asks for.
pub fn select_measurements(info: &[MeasurementInfo], meas_op: u8) -> (r: Result<
    Vec<MeasurementInfo>,
    SpdmError,
>)
    ensures
        match r {
            Ok(entries) => selection(info@, meas_op) == Some(entries@),
            Err(e) => selection(info@, meas_op) is None && e == SpdmError::InvalidRequest,
        },
{
    let mut entries: Vec<MeasurementInfo> = Vec::new();
    if meas_op == 0x00 {
        assert(entries@ =~= Seq::<MeasurementInfo>::empty());
    } else if meas_op == 0xFF {
        let len: usize = info.len();
        let mut i: usize = 0;
        while i < len
            invariant
                i <= len == info@.len(),
                entries@ =~= info@.take(i as int),
            decreases len - i,
        {
            entries.push(info[i]);
            i += 1;
        }
        assert(entries@ =~= info@);
    } else {
        match find_measurement(info, meas_op) {
            Some(entry) => {
                entries.push(entry);
                assert(entries@ =~= seq![entry]);
            },
            None => return Err(SpdmError::InvalidRequest),
        }
    }
    Ok(entries)
}

/// The most bytes that the record for an operation can take, and its number
/// of blocks. Fails when the operation names no measurement, or when there
/// are more blocks than the one-byte field can count.
pub fn measurement_record_shape(info: &[MeasurementInfo], meas_op: u8) -> (r: Result<
    (usize, u8),
    SpdmError,
>)
    ensures
        match selection(info@, meas_op) {
            None => r == Err::<(usize, u8), SpdmError>(SpdmError::InvalidRequest),
            Some(entries) => if entries.len() > u8::MAX {
                r == Err::<(usize, u8), SpdmError>(SpdmError::Unspecified)
            } else {
                r matches Ok((len, blocks)) && len == record_capacity(entries) && blocks
                    == entries.len()
            },
        },
{
    if meas_op == 0x00 {
        return Ok((0, 0));
    }
    if meas_op != 0xFF {
        return match find_measurement(info, meas_op) {
            Some(entry) => {
                proof {
                    let one = seq![entry];
                    assert(one.drop_last() =~= Seq::<MeasurementInfo>::empty());
                    assert(record_capacity(one.drop_last()) == 0);
                }
                Ok((MEAS_BLOCK_METADATA_SIZE + entry.value_size as usize, 1))
            },
            None => Err(SpdmError::InvalidRequest),
        };
    }
    let count: usize = info.len();
    if count > 0xFF {
        return Err(SpdmError::Unspecified);
    }
    let mut len: usize = 0;
    let mut blocks: u8 = 0;
    while (blocks as usize) < count
        invariant
            blocks <= count == info@.len(),
            count <= 0xFF,
            len == record_capacity(info@.take(blocks as int)),
            len <= blocks * 65542,
        decreases count - blocks,
    {
        let entry: MeasurementInfo = info[blocks as usize];
        assert(info@.take(blocks + 1).drop_last() =~= info@.take(blocks as int));
        len = len + (MEAS_BLOCK_METADATA_SIZE + entry.value_size as usize);
        blocks = blocks + 1;
    }
    assert(info@.take(count as int) =~= info@);
    Ok((len, blocks))
}

/// The bytes of a measurement block in front of its value.
fn block_header(entry: &MeasurementInfo, value_len: u16) -> (header: Vec<u8>)
    requires
        value_len <= MAX_BLOCK_VALUE_SIZE,
    ensures
        header@ == block_header_bytes(*entry, value_len as nat),
        header@.len() == MEAS_BLOCK_METADATA_SIZE,
{
    let mut header: Vec<u8> = Vec::new();
    header.push(entry.index);
    header.push(MEASUREMENT_SPECIFICATION_DMTF);
    let mut measurement_size: Vec<u8> = le_u16_as_bytes(value_len + DMTF_VALUE_HEADER_SIZE);
    header.append(&mut measurement_size);
    let kind: u8 = entry.value_type % 128;
    header.push(
        if entry.is_raw {
            kind + 128
        } else {
            kind
        },
    );
    let mut value_size: Vec<u8> = le_u16_as_bytes(value_len);
    header.append(&mut value_size);
    assert(header@ =~= block_header_bytes(*entry, value_len as nat));
    header
}

/// Where in a buffer the value of a measurement may go, when its block begins
/// at `offset`. Fails when the longest value would not fit.
pub fn block_value_range(entry: &MeasurementInfo, room: usize, offset: usize) -> (r: Result<
    (usize, usize),
    SpdmError,
>)
    ensures
        match r {
            Ok((start, end)) => {
                &&& start == offset + MEAS_BLOCK_METADATA_SIZE
                &&& end == start + entry.value_size
                &&& end <= room
            },
            Err(e) => {
                &&& e == SpdmError::Unspecified
                &&& offset + block_capacity(*entry) > room
            },
        },
{
    let start: usize = match offset.checked_add(MEAS_BLOCK_METADATA_SIZE) {
        Some(start) => start,
        None => return Err(SpdmError::Unspecified),
    };
    let end: usize = match start.checked_add(entry.value_size as usize) {
        Some(end) => end,
        None => return Err(SpdmError::Unspecified),
    };
    if end > room {
        return Err(SpdmError::Unspecified);
    }
    Ok((start, end))
}

/// Completes the block of a measurement at `offset` and gives the offset
/// after it. `value` is what the provider left in the value's place, which is
/// as long as the measurement's longest value, and `reported` the length that
/// it reported, or nothing where it failed.
///
/// Fails, and writes nothing, when the longest value would not fit in the
/// buffer. What the provider left stays in the buffer in any other case: also
/// behind a shorter value, and where no block comes about because the provider
/// failed or reported more than the measurement may have or a block can carry.
pub fn write_measurement_record_block_into_slice(
    entry: &MeasurementInfo,
    value: &[u8],
    reported: Option<usize>,
    out: &mut [u8],
    offset: usize,
) -> (r: Result<usize, SpdmError>)
    requires
        value@.len() == entry.value_size,
    ensures
        ({
            let filled = splice(old(out)@, offset + MEAS_BLOCK_METADATA_SIZE, value@);
            if offset + block_capacity(*entry) > old(out)@.len() {
                &&& r == Err::<usize, SpdmError>(SpdmError::Unspecified)
                &&& final(out)@ == old(out)@
            } else {
                match accepted_len(*entry, reported_len(reported)) {
                    Some(len) => {
                        &&& r matches Ok(next)
                        &&& next == offset + MEAS_BLOCK_METADATA_SIZE + len
                        &&& final(out)@ == splice(
                            filled,
                            offset as int,
                            block_bytes(*entry, value@.take(len as int)),
                        )
                    },
                    None => {
                        &&& r == Err::<usize, SpdmError>(SpdmError::Unspecified)
                        &&& final(out)@ == filled
                    },
                }
            }
        }),
{
    let (value_start, _value_end): (usize, usize) = block_value_range(entry, out.len(), offset)?;
    let _ = write_into_slice(out, value_start, value)?;
    let ghost filled = out@;
    let value_len: usize = match reported {
        Some(len) => len,
        None => return Err(SpdmError::Unspecified),
    };
    if value_len > entry.value_size as usize || value_len > MAX_BLOCK_VALUE_SIZE {
        return Err(SpdmError::Unspecified);
    }
    let header: Vec<u8> = block_header(entry, value_len as u16);
    let next: usize = write_into_slice(out, offset, header.as_slice())?;
    assert(out@ =~= splice(
        filled,
        offset as int,
        block_bytes(*entry, value@.take(value_len as int)),
    ));
    Ok(next + value_len)
}

/// Completes the block of a measurement (header and value) at the front of
/// `out` and gives the number of its bytes. `value` and `reported` are as in
/// [`write_measurement_record_block_into_slice`], and so is when it fails and
/// what then stays in the buffer.
pub fn write_measurement_block(
    entry: &MeasurementInfo,
    value: &[u8],
    reported: Option<usize>,
    out: &mut [u8],
) -> (r: Result<usize, SpdmError>)
    requires
        value@.len() == entry.value_size,
    ensures
        ({
            let filled = splice(old(out)@, MEAS_BLOCK_METADATA_SIZE as int, value@);
            if block_capacity(*entry) > old(out)@.len() {
                &&& r == Err::<usize, SpdmError>(SpdmError::Unspecified)
                &&& final(out)@ == old(out)@
            } else {
                match accepted_len(*entry, reported_len(reported)) {
                    Some(len) => {
                        &&& r matches Ok(written)
                        &&& written == MEAS_BLOCK_METADATA_SIZE + len
                        &&& final(out)@ == block_bytes(*entry, value@.take(len as int))
                            + filled.skip(written as int)
                    },
                    None => {
                        &&& r == Err::<usize, SpdmError>(SpdmError::Unspecified)
                        &&& final(out)@ == filled
                    },
                }
            }
        }),
{
    let ghost filled = splice(out@, MEAS_BLOCK_METADATA_SIZE as int, value@);
    let written: usize = write_measurement_record_block_into_slice(entry, value, reported, out, 0)?;
    assert(out@ =~= block_bytes(*entry, value@.take(written - MEAS_BLOCK_METADATA_SIZE))
        + filled.skip(written as int));
    Ok(written)
}

/// The first measurement with an index is there, and has the index.
pub proof fn lemma_first_with_index_is_there(info: Seq<MeasurementInfo>, index: u8)
    requires
        first_with_index(info, index) is Some,
    ensures
        info.contains(first_with_index(info, index)->0),
        (first_with_index(info, index)->0).index == index,
    decreases info.len(),
{
    if first_with_index(info.drop_last(), index) is Some {
        lemma_first_with_index_is_there(info.drop_last(), index);
        let entry = first_with_index(info, index)->0;
        let i = choose|i: int| 0 <= i < info.drop_last().len() && info.drop_last()[i] == entry;
        assert(info[i] == entry);
    } else {
        assert(info[info.len() - 1] == info.last());
    }
}

/// An operation finds no measurement exactly when none has the index that it
/// names.
pub proof fn law_unknown_index_is_refused(info: Seq<MeasurementInfo>, meas_op: u8)
    ensures
        selection(info, meas_op) is None <==> valid_index(meas_op) && forall|i: int|
            0 <= i < info.len() ==> (#[trigger] info[i]).index != meas_op,
{
    if first_with_index(info, meas_op) is Some {
        lemma_first_with_index_is_there(info, meas_op);
    }
    assert forall|i: int|
        0 <= i < info.len() && (#[trigger] info[i]).index == meas_op implies first_with_index(
        info,
        meas_op,
    ) is Some by {
        lemma_index_is_found(info, meas_op, i);
    }
    if first_with_index(info, meas_op) is Some {
        let entry = first_with_index(info, meas_op)->0;
        let i = choose|i: int| 0 <= i < info.len() && info[i] == entry;
        assert(info[i].index == meas_op);
    }
}

proof fn lemma_index_is_found(info: Seq<MeasurementInfo>, index: u8, i: int)
    requires
        0 <= i < info.len(),
        info[i].index == index,
    ensures
        first_with_index(info, index) is Some,
    decreases info.len(),
{
    if i < info.len() - 1 {
        assert(info.drop_last()[i] == info[i]);
        lemma_index_is_found(info.drop_last(), index, i);
    }
}

/// Any record that a platform's measurements lead to can be told in the
/// three-byte length field.
pub proof fn law_valid_record_fits_length_field(
    info: Seq<MeasurementInfo>,
    meas_op: u8,
    values: Seq<Seq<u8>>,
)
    requires
        valid_measurements(info),
        selection(info, meas_op) is Some,
        values_fit(selection(info, meas_op)->0, values),
    ensures
        record_bytes(selection(info, meas_op)->0, values).len() <= record_capacity(
            selection(info, meas_op)->0,
        ) <= SPDM_MAX_MEASUREMENT_RECORD_SIZE,
{
    let entries = selection(info, meas_op)->0;
    lemma_record_len(entries, values);
    lemma_record_capacity_grows(entries, values.len() as int);
    lemma_record_capacity_bound(entries);
}

/// A record begins with the block of its first measurement.
proof fn lemma_record_front(entries: Seq<MeasurementInfo>, values: Seq<Seq<u8>>)
    requires
        0 < values.len() <= entries.len(),
    ensures
        record_bytes(entries, values) == block_bytes(entries[0], values[0]) + record_bytes(
            entries.drop_first(),
            values.drop_first(),
        ),
    decreases values.len(),
{
    let n = values.len() as int;
    let rest = values.drop_first();
    if n == 1 {
        assert(record_bytes(entries, values.drop_last()) =~= Seq::<u8>::empty());
        assert(record_bytes(entries.drop_first(), rest) =~= Seq::<u8>::empty());
        assert(record_bytes(entries, values) =~= block_bytes(entries[0], values[0]));
    } else {
        lemma_record_front(entries, values.drop_last());
        assert(values.drop_last().drop_first() =~= rest.drop_last());
        assert(entries.drop_first()[rest.len() - 1] == entries[n - 1]);
        assert(rest.last() == values.last());
    }
}

/// What the front of a record tells of its first value.
proof fn lemma_first_value_is_told(entries: Seq<MeasurementInfo>, values: Seq<Seq<u8>>)
    requires
        values.len() > 0,
        values_fit(entries, values),
    ensures
        ({
            let record = record_bytes(entries, values);
            let start = MEAS_BLOCK_METADATA_SIZE as int;
            let end = start + values[0].len();
            &&& le_value(record.subrange(5, 7)) == values[0].len()
            &&& record.subrange(start, end) == values[0]
            &&& record.skip(end) == record_bytes(entries.drop_first(), values.drop_first())
            &&& values_fit(entries.drop_first(), values.drop_first())
        }),
{
    let record = record_bytes(entries, values);
    let start = MEAS_BLOCK_METADATA_SIZE as int;
    let end = start + values[0].len();
    let rest = values.drop_first();
    lemma_record_front(entries, values);
    assert(value_fits(entries[0], values[0].len()));
    law_le16_reads_back(values[0].len());
    assert(record.subrange(5, 7) =~= le16(values[0].len()));
    assert(record.subrange(start, end) =~= values[0]);
    assert(record.skip(end) =~= record_bytes(entries.drop_first(), rest));
    assert forall|i: int| 0 <= i < rest.len() implies value_fits(
        entries.drop_first()[i],
        #[trigger] rest[i].len(),
    ) by {
        assert(value_fits(entries[i + 1], values[i + 1].len()));
    }
}

/// A requester that knows which measurements a record is about can read their
/// values from it: two lists of values with the same record are the same.
pub proof fn law_record_determines_values(
    entries: Seq<MeasurementInfo>,
    a: Seq<Seq<u8>>,
    b: Seq<Seq<u8>>,
)
    requires
        a.len() == b.len(),
        values_fit(entries, a),
        values_fit(entries, b),
        record_bytes(entries, a) == record_bytes(entries, b),
    ensures
        a == b,
    decreases a.len(),
{
    if a.len() > 0 {
        lemma_first_value_is_told(entries, a);
        lemma_first_value_is_told(entries, b);
        law_record_determines_values(entries.drop_first(), a.drop_first(), b.drop_first());
        assert(a =~= seq![a[0]] + a.drop_first());
        assert(b =~= seq![b[0]] + b.drop_first());
    }
}

} // verus!
