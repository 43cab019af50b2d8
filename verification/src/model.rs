//! Mathematical model of the Yaz0 container format.
//!
//! `spec_decompress` says, for every byte sequence, exactly what decoding it
//! yields: either the decoded bytes (together with whether every operation of
//! the stream stayed inside the declared size) or the error that aborts the
//! decode. The executable decoder is proved to return precisely this.

use vstd::prelude::*;

verus! {

/// How a decode can fail. Every failure aborts the whole decode; there is no
/// partial result.
#[derive(Clone, Copy, Debug, PartialEq, Eq, Structural)]
pub enum DecompressError {
    /// The first four bytes are not the expected magic tag.
    FormatMismatch,
    /// The input ended before a required header field, control byte,
    /// literal byte, back-reference descriptor byte or extended-length byte.
    TruncatedInput,
    /// A back-reference would start before the beginning of the output.
    InvalidBackReference,
}

/// A successful decode: the output bytes, and whether every operation of the
/// stream ended at or below the declared output size. A conformant encoder
/// only emits operations that do; `exact` records that the stream kept this
/// fidelity requirement, in which case the output length equals the declared
/// size.
pub ghost struct Decoded {
    pub bytes: Seq<u8>,
    pub exact: bool,
}

/// The four-byte ASCII tag that opens every container: `Y`, `a`, `z`, `0`.
pub open spec fn magic_tag() -> Seq<u8> {
    seq![0x59u8, 0x61u8, 0x7Au8, 0x30u8]
}

/// A big-endian unsigned 32-bit integer read from four bytes.
pub open spec fn be_u32_val(b0: u8, b1: u8, b2: u8, b3: u8) -> int {
    (b0 as int) * 0x100_0000 + (b1 as int) * 0x1_0000 + (b2 as int) * 0x100 + (b3 as int)
}

/// The declared decompressed size: header bytes 4..8, big-endian.
pub open spec fn declared_size(s: Seq<u8>) -> int
    recommends
        s.len() >= 8,
{
    be_u32_val(s[4], s[5], s[6], s[7])
}

/// Bit `i` of a control byte; operations consume bits from bit 7 down to
/// bit 0, so bit 7 governs the first of the byte's eight operations.
pub open spec fn code_bit(code: u8, i: u8) -> bool
    recommends
        i < 8,
{
    (code >> i) & 1 == 1
}

/// The backward distance of a back-reference: the low four bits of its first
/// descriptor byte and all of its second, a value in 0..4096. The copy
/// starts `distance + 1` bytes before the current end of the output.
pub open spec fn back_distance(b0: u8, b1: u8) -> int {
    (b0 as int % 16) * 256 + (b1 as int)
}

/// The length nibble of a back-reference: the high four bits of its first
/// descriptor byte. Non-zero means a copy of `nibble + 2` bytes; zero means
/// the length comes from a third, extended-length byte.
pub open spec fn length_nibble(b0: u8) -> int {
    b0 as int / 16
}

/// `out` extended with `n` bytes copied one at a time from position `src`
/// on, each read from the output as it stands at the moment of that byte's
/// append. When `src + i` reaches positions this very copy wrote, it reads
/// them, so an overlapping copy expands a repeating pattern.
pub open spec fn spec_copy(out: Seq<u8>, src: int, n: int) -> Seq<u8>
    decreases n,
{
    if n <= 0 {
        out
    } else {
        spec_copy(out.push(out[src]), src + 1, n - 1)
    }
}

/// The decode loop from a mid-stream state: `pos` is the next payload
/// position, `out` the output so far, `size` the declared output size, and
/// `bits` how many operations of `code` are still unconsumed. Decoding ends
/// as soon as the output is no shorter than `size`; a well-formed stream
/// lands on `size` exactly, which `exact` records.
pub open spec fn spec_run(
    s: Seq<u8>,
    pos: int,
    out: Seq<u8>,
    size: int,
    code: u8,
    bits: int,
) -> Result<Decoded, DecompressError>
    decreases s.len() - pos,
{
    if out.len() >= size {
        Ok(Decoded { bytes: out, exact: out.len() == size })
    } else if pos < 0 || pos >= s.len() {
        Err(DecompressError::TruncatedInput)
    } else if bits <= 0 {
        spec_run(s, pos + 1, out, size, s[pos], 8)
    } else if code_bit(code, (bits - 1) as u8) {
        spec_run(s, pos + 1, out.push(s[pos]), size, code, bits - 1)
    } else if pos + 2 > s.len() {
        Err(DecompressError::TruncatedInput)
    } else {
        let dist = back_distance(s[pos], s[pos + 1]);
        if out.len() < dist + 1 {
            Err(DecompressError::InvalidBackReference)
        } else {
            let src = out.len() - dist - 1;
            let nib = length_nibble(s[pos]);
            if nib != 0 {
                match spec_run(s, pos + 2, spec_copy(out, src, nib + 2), size, code, bits - 1) {
                    Ok(d) => Ok(
                        Decoded { bytes: d.bytes, exact: d.exact && out.len() + nib + 2 <= size },
                    ),
                    Err(e) => Err(e),
                }
            } else if pos + 3 > s.len() {
                Err(DecompressError::TruncatedInput)
            } else {
                let ext = (s[pos + 2] as int) + 0x12;
                match spec_run(s, pos + 3, spec_copy(out, src, ext), size, code, bits - 1) {
                    Ok(d) => Ok(
                        Decoded { bytes: d.bytes, exact: d.exact && out.len() + ext <= size },
                    ),
                    Err(e) => Err(e),
                }
            }
        }
    }
}

/// What decoding a whole container yields: the magic tag is checked first,
/// then the 16-byte header must be present, then the payload runs with an
/// empty output, no unconsumed control bits, and the declared size as the
/// target.
pub open spec fn spec_decompress(s: Seq<u8>) -> Result<Decoded, DecompressError> {
    if s.len() < 4 {
        Err(DecompressError::TruncatedInput)
    } else if s.subrange(0, 4) != magic_tag() {
        Err(DecompressError::FormatMismatch)
    } else if s.len() < 16 {
        Err(DecompressError::TruncatedInput)
    } else {
        spec_run(s, 16, Seq::empty(), declared_size(s), 0u8, 0)
    }
}

} // verus!
