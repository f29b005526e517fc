//! Bounded edits of a response buffer.
use crate::error::SpdmError;
use vstd::prelude::*;

verus! {

/// `buf` with `bytes` in the place that begins at `at`.
pub open spec fn splice(buf: Seq<u8>, at: int, bytes: Seq<u8>) -> Seq<u8> {
    buf.take(at) + bytes + buf.skip(at + bytes.len())
}

/// `n` zero bytes.
pub open spec fn zeros(n: nat) -> Seq<u8> {
    Seq::new(n, |i: int| 0u8)
}

/// `buf` with `len` bytes from `src` on also at its front.
pub open spec fn shifted(buf: Seq<u8>, src: int, len: int) -> Seq<u8> {
    buf.subrange(src, src + len) + buf.skip(len)
}

/// The least multiple of `align` that is not below `len`.
pub open spec fn round_up(len: nat, align: nat) -> nat {
    ((len + align - 1) as nat / align) * align
}

/// Writing right behind what was written is writing both at once.
pub proof fn lemma_splice_extends(buf: Seq<u8>, at: int, front: Seq<u8>, back: Seq<u8>)
    requires
        0 <= at,
        at + front.len() + back.len() <= buf.len(),
    ensures
        splice(splice(buf, at, front), at + front.len(), back) == splice(buf, at, front + back),
{
    assert(splice(splice(buf, at, front), at + front.len(), back) =~= splice(
        buf,
        at,
        front + back,
    ));
}

/// Writing inside what was written is writing the edited bytes.
pub proof fn lemma_splice_edits(buf: Seq<u8>, at: int, bytes: Seq<u8>, inner: int, edit: Seq<u8>)
    requires
        0 <= at,
        0 <= inner,
        inner + edit.len() <= bytes.len(),
        at + bytes.len() <= buf.len(),
    ensures
        splice(splice(buf, at, bytes), at + inner, edit) == splice(
            buf,
            at,
            splice(bytes, inner, edit),
        ),
{
    assert(splice(splice(buf, at, bytes), at + inner, edit) =~= splice(
        buf,
        at,
        splice(bytes, inner, edit),
    ));
}

/// Writing behind what was written can come first.
pub proof fn lemma_splices_commute(buf: Seq<u8>, at: int, front: Seq<u8>, later: int, back: Seq<u8>)
    requires
        0 <= at,
        at + front.len() <= later,
        later + back.len() <= buf.len(),
    ensures
        splice(splice(buf, at, front), later, back) == splice(
            splice(buf, later, back),
            at,
            front,
        ),
{
    assert(splice(splice(buf, at, front), later, back) =~= splice(
        splice(buf, later, back),
        at,
        front,
    ));
}

/// Writes `bytes` at `offset` and gives the offset after them. Fails, and
/// writes nothing, when they do not fit.
pub fn write_into_slice(out: &mut [u8], offset: usize, bytes: &[u8]) -> (r: Result<
    usize,
    SpdmError,
>)
    ensures
        match r {
            Ok(next) => {
                &&& next == offset + bytes@.len()
                &&& next <= old(out)@.len()
                &&& final(out)@ == splice(old(out)@, offset as int, bytes@)
            },
            Err(e) => {
                &&& e == SpdmError::Unspecified
                &&& offset + bytes@.len() > old(out)@.len()
                &&& final(out)@ == old(out)@
            },
        },
{
    let ghost before = out@;
    let room: usize = out.len();
    let next: usize = match offset.checked_add(bytes.len()) {
        Some(next) => next,
        None => return Err(SpdmError::Unspecified),
    };
    if next > room {
        return Err(SpdmError::Unspecified);
    }
    let count: usize = bytes.len();
    let mut i: usize = 0;
    while i < count
        invariant
            i <= count == bytes@.len(),
            offset + count == next <= out@.len(),
            out@ =~= splice(before, offset as int, bytes@.take(i as int)),
            out@.len() == before.len(),
        decreases count - i,
    {
        out[offset + i] = bytes[i];
        i += 1;
    }
    assert(bytes@.take(count as int) =~= bytes@);
    Ok(next)
}

/// Moves `len` bytes that begin at `src` to the front. Fails, and moves
/// nothing, when they are not all inside the buffer.
pub fn shift_left(buf: &mut [u8], src: usize, len: usize) -> (r: Result<(), SpdmError>)
    ensures
        match r {
            Ok(()) => {
                &&& src + len <= old(buf)@.len()
                &&& final(buf)@ == shifted(old(buf)@, src as int, len as int)
            },
            Err(e) => {
                &&& e == SpdmError::Unspecified
                &&& src + len > old(buf)@.len()
                &&& final(buf)@ == old(buf)@
            },
        },
{
    let ghost before = buf@;
    let room: usize = buf.len();
    let end: usize = match src.checked_add(len) {
        Some(end) => end,
        None => return Err(SpdmError::Unspecified),
    };
    if end > room {
        return Err(SpdmError::Unspecified);
    }
    let mut i: usize = 0;
    while i < len
        invariant
            i <= len,
            src + len == end <= buf@.len(),
            buf@.len() == before.len(),
            forall|j: int| 0 <= j < i ==> buf@[j] == before[src + j],
            forall|j: int| i <= j < buf@.len() ==> buf@[j] == before[j],
        decreases len - i,
    {
        buf[i] = buf[src + i];
        i += 1;
    }
    assert(buf@ =~= shifted(before, src as int, len as int));
    Ok(())
}

/// Clears the bytes from `start` up to `end`. Fails, and clears nothing, when
/// that is not a range of the buffer.
pub fn zero_slice(buf: &mut [u8], start: usize, end: usize) -> (r: Result<(), SpdmError>)
    ensures
        match r {
            Ok(()) => {
                &&& start <= end <= old(buf)@.len()
                &&& final(buf)@ == splice(old(buf)@, start as int, zeros((end - start) as nat))
            },
            Err(e) => {
                &&& e == SpdmError::Unspecified
                &&& !(start <= end <= old(buf)@.len())
                &&& final(buf)@ == old(buf)@
            },
        },
{
    let ghost before = buf@;
    if start > end || end > buf.len() {
        return Err(SpdmError::Unspecified);
    }
    let mut i: usize = start;
    while i < end
        invariant
            start <= i <= end <= buf@.len(),
            buf@ =~= splice(before, start as int, zeros((i - start) as nat)),
            buf@.len() == before.len(),
        decreases end - i,
    {
        buf[i] = 0;
        i += 1;
    }
    Ok(())
}

/// Clears a whole buffer.
pub fn cleared(buf: Vec<u8>) -> (r: Vec<u8>)
    ensures
        r@ == zeros(buf@.len()),
{
    let mut buf: Vec<u8> = buf;
    let ghost full = buf@;
    let len: usize = buf.len();
    let _ = zero_slice(buf.as_mut_slice(), 0, len);
    assert(buf@ =~= zeros(full.len()));
    buf
}

/// Rounds a length up to the transport's alignment. Fails when there is no
/// alignment, or when the sum that rounds up does not fit.
pub fn align_send_len(align: usize, len: usize) -> (r: Result<usize, SpdmError>)
    ensures
        match r {
            Ok(padded) => {
                &&& align != 0
                &&& len + align - 1 <= usize::MAX
                &&& padded == round_up(len as nat, align as nat)
            },
            Err(e) => {
                &&& e == SpdmError::Unspecified
                &&& align == 0 || len + align - 1 > usize::MAX
            },
        },
{
    if align == 0 {
        return Err(SpdmError::Unspecified);
    }
    match len.checked_add(align - 1) {
        Some(n) => {
            proof {
                law_round_up_is_tight_multiple(len as nat, align as nat);
                assert((n / align) * align <= n) by (nonlinear_arith)
                    requires
                        align > 0,
                ;
            }
            Ok((n / align) * align)
        },
        None => Err(SpdmError::Unspecified),
    }
}

/// Rounding up gives a multiple of the alignment, less than one alignment
/// above the length.
pub proof fn law_round_up_is_tight_multiple(len: nat, align: nat)
    requires
        align > 0,
    ensures
        round_up(len, align) % align == 0,
        len <= round_up(len, align) < len + align,
{
    let n = (len + align - 1) as nat;
    let q = n / align;
    vstd::arithmetic::div_mod::lemma_fundamental_div_mod(n as int, align as int);
    vstd::arithmetic::div_mod::lemma_mod_multiples_basic(q as int, align as int);
    assert(q * align == align * q) by (nonlinear_arith);
}

/// No multiple of the alignment that holds the length is smaller than the
/// rounded length.
pub proof fn law_round_up_is_least(len: nat, align: nat, multiple: nat)
    requires
        align > 0,
        multiple % align == 0,
        multiple >= len,
    ensures
        round_up(len, align) <= multiple,
{
    law_round_up_is_tight_multiple(len, align);
    let q = (len + align - 1) as nat / align;
    let k = multiple / align;
    vstd::arithmetic::div_mod::lemma_fundamental_div_mod(multiple as int, align as int);
    assert(multiple == align * k);
    assert(k < q ==> align * k + align <= q * align) by (nonlinear_arith)
        requires
            align > 0,
    ;
    assert(k >= q ==> align * k >= q * align) by (nonlinear_arith)
        requires
            align > 0,
    ;
}

/// Writing bytes into a buffer puts each of them in its place, and leaves every
/// other byte and the length of the buffer.
pub proof fn law_splice_bytes(buf: Seq<u8>, at: int, bytes: Seq<u8>)
    requires
        0 <= at,
        at + bytes.len() <= buf.len(),
    ensures
        splice(buf, at, bytes).len() == buf.len(),
        forall|i: int|
            0 <= i < buf.len() ==> #[trigger] splice(buf, at, bytes)[i] == (if at <= i < at
                + bytes.len() {
                bytes[i - at]
            } else {
                buf[i]
            }),
{
}

/// Cleared bytes are all zero, and as many as there were.
pub proof fn law_zeros_are_zero(n: nat)
    ensures
        zeros(n).len() == n,
        forall|i: int| 0 <= i < n ==> #[trigger] zeros(n)[i] == 0,
{
}

/// Moving bytes to the front of a buffer puts each of them there in order, and
/// leaves every byte behind them and the length of the buffer.
pub proof fn law_shifted_bytes(buf: Seq<u8>, src: int, len: int)
    requires
        0 <= src,
        0 <= len,
        src + len <= buf.len(),
    ensures
        shifted(buf, src, len).len() == buf.len(),
        forall|i: int|
            0 <= i < buf.len() ==> #[trigger] shifted(buf, src, len)[i] == (if i < len {
                buf[src + i]
            } else {
                buf[i]
            }),
{
}

} // verus!
