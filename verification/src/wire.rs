//! Byte-level pieces of messages: what `zerocopy` reads and writes, and the
//! little-endian fields.
use crate::error::SpdmError;
use crate::spdm::SPDM_MAX_MEASUREMENT_RECORD_SIZE;
use vstd::prelude::*;
use zerocopy::{FromBytes, IntoBytes};

verus! {

/// The two bytes of a number below 2^16, low byte first.
pub open spec fn le16(n: nat) -> Seq<u8> {
    seq![(n % 256) as u8, (n / 256) as u8]
}

/// The three bytes of a number below 2^24, low byte first.
pub open spec fn le24(n: nat) -> Seq<u8> {
    seq![(n % 256) as u8, (n / 256 % 256) as u8, (n / 65536) as u8]
}

/// The number that bytes stand for, low byte first.
pub open spec fn le_value(bytes: Seq<u8>) -> nat
    decreases bytes.len(),
{
    if bytes.len() == 0 {
        0
    } else {
        bytes[0] as nat + 256 * le_value(bytes.drop_first())
    }
}

/// Calls `zerocopy::FromBytes::ref_from_prefix` on `[u8; 2]`, a type of two
/// bytes with no alignment to meet. The call gives a reference to the first
/// two bytes and the bytes after them, and fails exactly when there are fewer
/// than two.
#[verifier::external_body]
pub(crate) fn ref_pair_from_prefix(bytes: &[u8]) -> (split: Option<(&[u8; 2], &[u8])>)
    ensures
        split is Some <==> bytes@.len() >= 2,
        split matches Some((pair, rest)) ==> {
            &&& pair@ == bytes@.subrange(0, 2)
            &&& rest@ == bytes@.subrange(2, bytes@.len() as int)
        },
{
    match <[u8; 2]>::ref_from_prefix(bytes) {
        Ok((pair, rest)) => Some((pair, rest)),
        Err(_) => None,
    }
}

/// Calls `zerocopy::IntoBytes::as_bytes` on a `zerocopy::little_endian::U16`
/// made from the number. The bytes of that type are the number's two bytes,
/// low byte first, on every machine.
#[verifier::external_body]
pub(crate) fn le_u16_as_bytes(value: u16) -> (bytes: Vec<u8>)
    ensures
        bytes@ == le16(value as nat),
{
    zerocopy::little_endian::U16::new(value).as_bytes().to_vec()
}

/// The three-byte length field of a measurement record.
pub fn u24_le(len: usize) -> (r: Result<[u8; 3], SpdmError>)
    ensures
        match r {
            Ok(bytes) => len <= SPDM_MAX_MEASUREMENT_RECORD_SIZE && bytes@ == le24(len as nat),
            Err(e) => len > SPDM_MAX_MEASUREMENT_RECORD_SIZE && e == SpdmError::Unspecified,
        },
{
    if len > 0xFF_FFFF {
        return Err(SpdmError::Unspecified);
    }
    let n: u32 = len as u32;
    let bytes: [u8; 3] = [(n % 256) as u8, (n / 256 % 256) as u8, (n / 65536) as u8];
    assert(bytes@ =~= le24(len as nat));
    Ok(bytes)
}

/// Reading a record length field back gives the length that was written.
pub proof fn law_le24_reads_back(n: nat)
    requires
        n <= SPDM_MAX_MEASUREMENT_RECORD_SIZE,
    ensures
        le_value(le24(n)) == n,
{
    reveal_with_fuel(le_value, 4);
    let b = le24(n);
    assert(b.drop_first() =~= seq![b[1], b[2]]);
    assert(b.drop_first().drop_first() =~= seq![b[2]]);
    assert(b.drop_first().drop_first().drop_first() =~= Seq::<u8>::empty());
}

/// Reading a 16-bit field back gives the number that was written.
pub proof fn law_le16_reads_back(n: nat)
    requires
        n <= u16::MAX,
    ensures
        le_value(le16(n)) == n,
{
    reveal_with_fuel(le_value, 3);
    let b = le16(n);
    assert(b.drop_first() =~= seq![b[1]]);
    assert(b.drop_first().drop_first() =~= Seq::<u8>::empty());
}

/// A two-byte field holds its low byte first, and so does a three-byte field.
pub proof fn law_fields_are_little_endian(n: nat)
    ensures
        n < 65536 ==> le16(n).len() == 2 && le16(n)[0] + 256 * le16(n)[1] == n,
        n < 16777216 ==> le24(n).len() == 3 && le24(n)[0] + 256 * le24(n)[1] + 65536 * le24(n)[2]
            == n,
{
}

/// The bytes of a field stand for a number, low byte first.
pub proof fn law_value_of_bytes(bytes: Seq<u8>)
    ensures
        bytes.len() == 2 ==> le_value(bytes) == bytes[0] + 256 * bytes[1],
        bytes.len() == 3 ==> le_value(bytes) == bytes[0] + 256 * bytes[1] + 65536 * bytes[2],
{
    reveal_with_fuel(le_value, 4);
}

} // verus!
