//! The context that goes in front of a digest before it is signed.
use crate::buffer::{splice, zeros};
use crate::spdm::SpdmVersion;
use vstd::prelude::*;

verus! {

/// Length of the version prefix of a signing context.
pub const SPDM_PREFIX_LEN: usize = 64;

/// Length of the part of a signing context that names the operation.
pub const SPDM_CONTEXT_LEN: usize = 36;

/// Length of a signing context.
pub const SPDM_SIGNING_CONTEXT_LEN: usize = 100;

/// The bytes of an ASCII text.
pub open spec fn ascii(text: Seq<char>) -> Seq<u8> {
    text.map_values(|c: char| c as u8)
}

/// How a version is written in a signing context.
pub open spec fn version_text(version: SpdmVersion) -> Seq<char> {
    match version {
        SpdmVersion::V10 => "1.0.*"@,
        SpdmVersion::V11 => "1.1.*"@,
        SpdmVersion::V12 => "1.2.*"@,
        SpdmVersion::V13 => "1.3.*"@,
        SpdmVersion::V14 => "1.4.*"@,
    }
}

/// A signing context for measurements: four times the protocol's name with
/// the version, zero bytes, and the name of the operation.
pub open spec fn context_bytes(version: Seq<u8>) -> Seq<u8> {
    let once = ascii("dmtf-spdm-v"@) + version;
    let operation = ascii("responder-measurements signing"@);
    once + once + once + once + zeros((SPDM_CONTEXT_LEN - operation.len()) as nat) + operation
}

/// The signing context for measurements of a version.
pub open spec fn signing_context_bytes(version: SpdmVersion) -> Seq<u8> {
    context_bytes(ascii(version_text(version)))
}

/// Writes `bytes` at `at`.
fn put(context: &mut [u8; 100], at: usize, bytes: &[u8])
    requires
        at + bytes@.len() <= SPDM_SIGNING_CONTEXT_LEN,
    ensures
        final(context)@ == splice(old(context)@, at as int, bytes@),
{
    let ghost before = context@;
    let count: usize = bytes.len();
    let mut i: usize = 0;
    while i < count
        invariant
            i <= count == bytes@.len(),
            at + count <= SPDM_SIGNING_CONTEXT_LEN,
            context@ =~= splice(before, at as int, bytes@.take(i as int)),
            before.len() == SPDM_SIGNING_CONTEXT_LEN,
        decreases count - i,
    {
        context[at + i] = bytes[i];
        i += 1;
    }
    assert(bytes@.take(count as int) =~= bytes@);
}

/// Lays out the signing context for measurements of a version that is written
/// as these bytes.
pub fn build_signing_context(ver: &[u8; 5]) -> (context: [u8; 100])
    ensures
        context@ == context_bytes(ver@),
{
    let base: &[u8] = "dmtf-spdm-v".as_bytes();
    let operation: &[u8] = "responder-measurements signing".as_bytes();
    proof {
        reveal_strlit("dmtf-spdm-v");
        reveal_strlit("responder-measurements signing");
        vstd::string::is_ascii_spec_bytes("dmtf-spdm-v");
        vstd::string::is_ascii_spec_bytes("responder-measurements signing");
        assert(base@ =~= ascii("dmtf-spdm-v"@));
        assert(operation@ =~= ascii("responder-measurements signing"@));
    }
    let mut context: [u8; 100] = [0u8;100];
    let ghost once = base@ + ver@;
    let mut pos: usize = 0;
    let mut i: usize = 0;
    while i < 4
        invariant
            i <= 4,
            pos == 16 * i,
            base@.len() == 11,
            ver@.len() == 5,
            once == base@ + ver@,
            forall|j: int| 0 <= j < pos ==> context@[j] == once[j % 16],
            forall|j: int| pos <= j < SPDM_SIGNING_CONTEXT_LEN ==> context@[j] == 0,
        decreases 4 - i,
    {
        put(&mut context, pos, base);
        pos += base.len();
        put(&mut context, pos, ver.as_slice());
        pos += 5;
        i += 1;
    }
    let pad: usize = SPDM_CONTEXT_LEN - operation.len();
    put(&mut context, SPDM_PREFIX_LEN + pad, operation);
    assert(context@ =~= context_bytes(ver@));
    context
}

/// How a version is written in a signing context: `1.`, the digit of the minor
/// version, and `.*`.
fn version_bytes(version: SpdmVersion) -> (bytes: [u8; 5])
    ensures
        bytes@ == ascii(version_text(version)),
{
    proof {
        reveal_strlit("1.0.*");
        reveal_strlit("1.1.*");
        reveal_strlit("1.2.*");
        reveal_strlit("1.3.*");
        reveal_strlit("1.4.*");
    }
    let minor: u8 = match version {
        SpdmVersion::V10 => 0x30,
        SpdmVersion::V11 => 0x31,
        SpdmVersion::V12 => 0x32,
        SpdmVersion::V13 => 0x33,
        SpdmVersion::V14 => 0x34,
    };
    let bytes: [u8; 5] = [0x31, 0x2E, minor, 0x2E, 0x2A];
    assert(bytes@ =~= ascii(version_text(version)));
    bytes
}

/// The signing context for measurements of a version.
pub fn signing_context(version: SpdmVersion) -> (context: [u8; 100])
    ensures
        context@ == signing_context_bytes(version),
{
    build_signing_context(&version_bytes(version))
}

/// The layout of a signing context, whatever bytes the version is written
/// with: four times sixteen bytes of name and version, six zero bytes, and the
/// name of the operation, which ends at the last byte.
pub proof fn law_signing_context_layout(ver: Seq<u8>)
    requires
        ver.len() == 5,
    ensures
        context_bytes(ver).len() == SPDM_SIGNING_CONTEXT_LEN,
        forall|i: int|
            0 <= i < 4 ==> #[trigger] context_bytes(ver).subrange(16 * i, 16 * i + 16) == ascii(
                "dmtf-spdm-v"@,
            ) + ver,
        context_bytes(ver).subrange(SPDM_PREFIX_LEN as int, 70) == zeros(6),
        context_bytes(ver).subrange(70, 100) == ascii("responder-measurements signing"@),
{
    reveal_strlit("dmtf-spdm-v");
    reveal_strlit("responder-measurements signing");
    let once = ascii("dmtf-spdm-v"@) + ver;
    assert forall|i: int| 0 <= i < 4 implies #[trigger] context_bytes(ver).subrange(
        16 * i,
        16 * i + 16,
    ) == once by {
        assert(i == 0 || i == 1 || i == 2 || i == 3);
        assert(context_bytes(ver).subrange(16 * i, 16 * i + 16) =~= once);
    }
    assert(context_bytes(ver).subrange(SPDM_PREFIX_LEN as int, 70) =~= zeros(6));
    assert(context_bytes(ver).subrange(70, 100) =~= ascii("responder-measurements signing"@));
}

/// A signing context has a fixed length, and contexts of different versions
/// differ.
pub proof fn law_signing_contexts_are_distinct(a: SpdmVersion, b: SpdmVersion)
    ensures
        signing_context_bytes(a).len() == SPDM_SIGNING_CONTEXT_LEN,
        signing_context_bytes(a) == signing_context_bytes(b) ==> a == b,
{
    reveal_strlit("dmtf-spdm-v");
    reveal_strlit("responder-measurements signing");
    reveal_strlit("1.0.*");
    reveal_strlit("1.1.*");
    reveal_strlit("1.2.*");
    reveal_strlit("1.3.*");
    reveal_strlit("1.4.*");
    assert(signing_context_bytes(a)[13] == version_text(a)[2] as u8);
    assert(signing_context_bytes(b)[13] == version_text(b)[2] as u8);
}

/// The bytes of an ASCII text are its characters, in order.
pub proof fn law_ascii_bytes(text: Seq<char>)
    ensures
        ascii(text).len() == text.len(),
        forall|i: int| 0 <= i < text.len() ==> #[trigger] ascii(text)[i] == text[i] as u8,
{
}

/// Each of the four prefixes of a signing context ends in the version: the
/// digit 1, a dot, the digit of the minor version, a dot and a star.
pub proof fn law_signing_context_tells_version(version: SpdmVersion, i: int)
    requires
        0 <= i < 4,
    ensures
        ({
            let context = signing_context_bytes(version);
            let at = 16 * i + 11;
            let minor: int = match version {
                SpdmVersion::V10 => 0,
                SpdmVersion::V11 => 1,
                SpdmVersion::V12 => 2,
                SpdmVersion::V13 => 3,
                SpdmVersion::V14 => 4,
            };
            &&& context.len() == 100
            &&& context[at] == 0x31
            &&& context[at + 1] == 0x2E
            &&& context[at + 2] == 0x30 + minor
            &&& context[at + 3] == 0x2E
            &&& context[at + 4] == 0x2A
        }),
{
    let ver = ascii(version_text(version));
    let base = ascii("dmtf-spdm-v"@);
    let context = signing_context_bytes(version);
    lemma_version_digits(version);
    law_signing_context_layout(ver);
    assert(base.len() == 11) by {
        reveal_strlit("dmtf-spdm-v");
    }
    assert(context.subrange(16 * i, 16 * i + 16) == base + ver);
    lemma_version_in_prefix(context, i, base, ver);
}

/// The bytes of a version's text.
proof fn lemma_version_digits(version: SpdmVersion)
    ensures
        ({
            let ver = ascii(version_text(version));
            let minor: int = match version {
                SpdmVersion::V10 => 0,
                SpdmVersion::V11 => 1,
                SpdmVersion::V12 => 2,
                SpdmVersion::V13 => 3,
                SpdmVersion::V14 => 4,
            };
            &&& ver.len() == 5
            &&& ver[0] == 0x31
            &&& ver[1] == 0x2E
            &&& ver[2] == 0x30 + minor
            &&& ver[3] == 0x2E
            &&& ver[4] == 0x2A
        }),
{
    reveal_strlit("1.0.*");
    reveal_strlit("1.1.*");
    reveal_strlit("1.2.*");
    reveal_strlit("1.3.*");
    reveal_strlit("1.4.*");
}

/// The version in a prefix.
proof fn lemma_version_in_prefix(context: Seq<u8>, i: int, base: Seq<u8>, ver: Seq<u8>)
    requires
        0 <= i < 4,
        context.len() == 100,
        base.len() == 11,
        ver.len() == 5,
        context.subrange(16 * i, 16 * i + 16) == base + ver,
    ensures
        context[16 * i + 11] == ver[0],
        context[16 * i + 11 + 1] == ver[1],
        context[16 * i + 11 + 2] == ver[2],
        context[16 * i + 11 + 3] == ver[3],
        context[16 * i + 11 + 4] == ver[4],
{
    let once = context.subrange(16 * i, 16 * i + 16);
    assert forall|j: int| 0 <= j < 16 implies context[16 * i + j] == #[trigger] once[j] by {}
    assert(once[11] == ver[0] && once[12] == ver[1] && once[13] == ver[2] && once[14] == ver[3]
        && once[15] == ver[4]);
}

} // verus!
