//! The executable decoder, proved to return exactly what the model says.

use vstd::prelude::*;

use crate::model::{
    be_u32_val, declared_size, magic_tag, spec_copy, spec_decompress, spec_run, Decoded,
    DecompressError,
};

verus! {

/// A big-endian unsigned 32-bit integer from four bytes.
fn be_u32(b0: u8, b1: u8, b2: u8, b3: u8) -> (r: u32)
    ensures
        r as int == be_u32_val(b0, b1, b2, b3),
{
    (b0 as u32) * 0x100_0000 + (b1 as u32) * 0x1_0000 + (b2 as u32) * 0x100 + (b3 as u32)
}

/// Whether the input opens with the magic tag.
fn magic_matches(input: &Vec<u8>) -> (r: bool)
    requires
        input@.len() >= 4,
    ensures
        r <==> input@.subrange(0, 4) == magic_tag(),
{
    let r = input[0] == 0x59 && input[1] == 0x61 && input[2] == 0x7A && input[3] == 0x30;
    proof {
        let sub = input@.subrange(0, 4);
        assert(sub[0] == input@[0] && sub[1] == input@[1] && sub[2] == input@[2] && sub[3]
            == input@[3]);
        if r {
            assert(sub =~= magic_tag());
        } else {
            assert(sub != magic_tag());
        }
    }
    r
}

/// Decode one whole container held in `input`: check the magic tag, read the
/// declared output size, skip the reserved bytes, then run the control-byte
/// loop until the output reaches the declared size. Returns exactly what the
/// model `spec_decompress` says, for every input.
pub fn decompress(input: &Vec<u8>) -> (r: Result<Vec<u8>, DecompressError>)
    ensures
        (match r {
            Ok(v) => spec_decompress(input@) matches Ok(d) && v@ == d.bytes,
            Err(e) => spec_decompress(input@) matches Err(e2) && e == e2,
        }),
{
    let ghost s = input@;
    let n = input.len();
    if n < 4 {
        return Err(DecompressError::TruncatedInput);
    }
    if !magic_matches(input) {
        return Err(DecompressError::FormatMismatch);
    }
    if n < 16 {
        return Err(DecompressError::TruncatedInput);
    }
    let size32 = be_u32(input[4], input[5], input[6], input[7]);
    let size = size32 as usize;
    proof {
        assert(size as int == declared_size(s));
        assert(spec_decompress(s) == spec_run(s, 16, Seq::<u8>::empty(), size as int, 0u8, 0));
    }
    let mut out: Vec<u8> = Vec::new();
    let mut pos: usize = 16;
    let mut code: u8 = 0;
    let mut bits: u8 = 0;
    while out.len() < size
        invariant
            s == input@,
            n == s.len(),
            16 <= pos <= n,
            bits <= 8,
            spec_decompress(s) == spec_run(s, pos as int, out@, size as int, code, bits as int),
        decreases n - pos,
    {
        if bits == 0 {
            if pos >= n {
                return Err(DecompressError::TruncatedInput);
            }
            code = input[pos];
            pos = pos + 1;
            bits = 8;
        }
        proof {
            assert(spec_decompress(s) == spec_run(
                s,
                pos as int,
                out@,
                size as int,
                code,
                bits as int,
            ));
        }
        let ghost mid_pos = pos as int;
        let ghost mid_out = out@;
        let ghost mid_bits = bits as int;
        if (code >> (bits - 1)) & 1 == 1 {
            if pos >= n {
                return Err(DecompressError::TruncatedInput);
            }
            let b = input[pos];
            pos = pos + 1;
            out.push(b);
        } else {
            if n - pos < 2 {
                return Err(DecompressError::TruncatedInput);
            }
            let b0 = input[pos];
            let b1 = input[pos + 1];
            let dist = (b0 as usize % 16) * 256 + b1 as usize;
            if out.len() < dist + 1 {
                return Err(DecompressError::InvalidBackReference);
            }
            let nib = b0 / 16;
            let copy_len: usize;
            if nib != 0 {
                copy_len = nib as usize + 2;
                pos = pos + 2;
            } else {
                if n - pos < 3 {
                    return Err(DecompressError::TruncatedInput);
                }
                copy_len = input[pos + 2] as usize + 0x12;
                pos = pos + 3;
            }
            let ghost out0 = out@;
            let ghost src = out0.len() - dist as int - 1;
            let mut i: usize = 0;
            while i < copy_len
                invariant
                    i <= copy_len,
                    dist as int + 1 <= out0.len(),
                    src == out0.len() - dist as int - 1,
                    out@.len() == out0.len() + i,
                    spec_copy(out@, src + i as int, copy_len as int - i as int) == spec_copy(
                        out0,
                        src,
                        copy_len as int,
                    ),
                decreases copy_len - i,
            {
                let idx = out.len() - dist - 1;
                let b = out[idx];
                out.push(b);
                i = i + 1;
            }
            assert(out@ == spec_copy(out0, src, copy_len as int));
            proof {
                let next = spec_run(
                    s,
                    pos as int,
                    out@,
                    size as int,
                    code,
                    mid_bits - 1,
                );
                if out0.len() + copy_len as int > size as int {
                    assert(out@.len() > size as int);
                    assert(next == Ok::<Decoded, DecompressError>(
                        Decoded { bytes: out@, exact: false },
                    ));
                }
                assert(spec_run(s, mid_pos, mid_out, size as int, code, mid_bits) == next);
            }
        }
        bits = bits - 1;
        proof {
            assert(spec_decompress(s) == spec_run(
                s,
                pos as int,
                out@,
                size as int,
                code,
                bits as int,
            ));
        }
    }
    assert(spec_run(s, pos as int, out@, size as int, code, bits as int) == Ok::<
        Decoded,
        DecompressError,
    >(Decoded { bytes: out@, exact: out@.len() == size as int }));
    Ok(out)
}

} // verus!
