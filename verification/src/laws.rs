//! Proved properties of the container format.

use vstd::prelude::*;

use crate::model::{
    back_distance, code_bit, declared_size, length_nibble, magic_tag, spec_copy, spec_decompress,
    spec_run, Decoded, DecompressError,
};

verus! {

/// Law: a wrong magic tag fails with `FormatMismatch`, whatever follows it;
/// in particular no further header field is ever needed.
pub proof fn lemma_bad_magic(s: Seq<u8>)
    requires
        s.len() >= 4,
        s.subrange(0, 4) != magic_tag(),
    ensures
        spec_decompress(s) == Err::<Decoded, DecompressError>(DecompressError::FormatMismatch),
{
}

/// Law: a declared size of zero decodes to the empty sequence, whatever
/// payload follows the header.
pub proof fn lemma_zero_size_empty(s: Seq<u8>)
    requires
        s.len() >= 16,
        s.subrange(0, 4) == magic_tag(),
        declared_size(s) == 0,
    ensures
        spec_decompress(s) == Ok::<Decoded, DecompressError>(
            Decoded { bytes: Seq::empty(), exact: true },
        ),
{
}

/// `spec_copy` appends exactly `n` bytes.
proof fn lemma_copy_len(out: Seq<u8>, src: int, n: int)
    requires
        n >= 0,
    ensures
        spec_copy(out, src, n).len() == out.len() + n,
    decreases n,
{
    if n > 0 {
        lemma_copy_len(out.push(out[src]), src + 1, n - 1);
    }
}

/// Induction behind `lemma_decode_len`: from any mid-stream state whose
/// output has not yet passed the declared size, a successful run yields at
/// least `size` bytes, and exactly `size` when the run is exact.
proof fn lemma_run_len(s: Seq<u8>, pos: int, out: Seq<u8>, size: int, code: u8, bits: int)
    requires
        out.len() <= size,
        spec_run(s, pos, out, size, code, bits) is Ok,
    ensures
        spec_run(s, pos, out, size, code, bits)->Ok_0.bytes.len() >= size,
        spec_run(s, pos, out, size, code, bits)->Ok_0.exact ==> spec_run(
            s,
            pos,
            out,
            size,
            code,
            bits,
        )->Ok_0.bytes.len() == size,
    decreases s.len() - pos,
{
    if out.len() >= size {
    } else if pos < 0 || pos >= s.len() {
    } else if bits <= 0 {
        lemma_run_len(s, pos + 1, out, size, s[pos], 8);
    } else if code_bit(code, (bits - 1) as u8) {
        lemma_run_len(s, pos + 1, out.push(s[pos]), size, code, bits - 1);
    } else if pos + 2 > s.len() {
    } else {
        let dist = back_distance(s[pos], s[pos + 1]);
        if out.len() < dist + 1 {
        } else {
            let src = out.len() - dist - 1;
            let nib = length_nibble(s[pos]);
            if nib != 0 {
                lemma_copy_len(out, src, nib + 2);
                if out.len() + nib + 2 <= size {
                    lemma_run_len(s, pos + 2, spec_copy(out, src, nib + 2), size, code, bits - 1);
                }
            } else if pos + 3 > s.len() {
            } else {
                let ext = (s[pos + 2] as int) + 0x12;
                lemma_copy_len(out, src, ext);
                if out.len() + ext <= size {
                    lemma_run_len(s, pos + 3, spec_copy(out, src, ext), size, code, bits - 1);
                }
            }
        }
    }
}

/// Law: when decoding succeeds the result holds at least the declared number
/// of bytes, and exactly that number whenever every operation of the stream
/// stayed inside the declared size — the sizing a conformant encoder owes.
pub proof fn lemma_decode_len(s: Seq<u8>)
    requires
        spec_decompress(s) is Ok,
    ensures
        spec_decompress(s)->Ok_0.bytes.len() >= declared_size(s),
        spec_decompress(s)->Ok_0.exact ==> spec_decompress(s)->Ok_0.bytes.len() == declared_size(
            s,
        ),
{
    lemma_run_len(s, 16, Seq::empty(), declared_size(s), 0u8, 0);
}

/// Law: a back-reference that would start before the beginning of the output
/// aborts the decode with `InvalidBackReference`.
pub proof fn lemma_backref_underflow(
    s: Seq<u8>,
    pos: int,
    out: Seq<u8>,
    size: int,
    code: u8,
    bits: int,
)
    requires
        out.len() < size,
        0 <= pos,
        pos + 2 <= s.len(),
        1 <= bits <= 8,
        !code_bit(code, (bits - 1) as u8),
        out.len() < back_distance(s[pos], s[pos + 1]) + 1,
    ensures
        spec_run(s, pos, out, size, code, bits) == Err::<Decoded, DecompressError>(
            DecompressError::InvalidBackReference,
        ),
{
}

/// Law (self-overlapping copy): a back-reference copy leaves the output it
/// found untouched, and each byte it appends equals the byte `distance + 1`
/// positions before it — including bytes the same copy has just written, so
/// a distance shorter than the copy expands a repeating pattern.
pub proof fn lemma_copy_self_overlap(out: Seq<u8>, src: int, n: int)
    requires
        0 <= src < out.len(),
        n >= 0,
    ensures
        spec_copy(out, src, n).len() == out.len() + n,
        forall|j: int| 0 <= j < out.len() ==> #[trigger] spec_copy(out, src, n)[j] == out[j],
        forall|j: int|
            out.len() <= j < out.len() + n ==> #[trigger] spec_copy(out, src, n)[j] == spec_copy(
                out,
                src,
                n,
            )[j - (out.len() - src)],
    decreases n,
{
    lemma_copy_len(out, src, n);
    if n > 0 {
        lemma_copy_self_overlap(out.push(out[src]), src + 1, n - 1);
        let c = spec_copy(out, src, n);
        let p = out.len() - src;
        assert forall|j: int| out.len() <= j < out.len() + n implies #[trigger] c[j] == c[j
            - p] by {
            if j == out.len() {
                assert(c[j] == out.push(out[src])[j]);
                assert(c[src] == out.push(out[src])[src]);
            }
        }
    }
}

/// How many bytes of `d` the next all-ones control byte governs.
pub open spec fn group_len(d: Seq<u8>) -> int {
    if d.len() <= 8 {
        d.len() as int
    } else {
        8
    }
}

/// A pure literal payload for the data `d`: each control byte is all ones,
/// so every operation copies one literal byte, and each control byte is
/// followed by up to eight bytes of `d`.
pub open spec fn literal_payload(d: Seq<u8>) -> Seq<u8>
    decreases d.len(),
{
    if d.len() == 0 {
        Seq::empty()
    } else {
        seq![0xFFu8] + d.subrange(0, group_len(d)) + literal_payload(
            d.subrange(group_len(d), d.len() as int),
        )
    }
}

/// Every bit of an all-ones control byte is set.
proof fn lemma_all_ones_bits()
    by (bit_vector)
    ensures
        forall|i: u8| i < 8 ==> #[trigger] code_bit(0xFFu8, i),
{
}

/// Induction behind the literal-run laws: from a state whose remaining
/// control bits are all ones and whose remaining input is `m` literals of
/// the current group followed by the literal payload of the rest of `d`,
/// the run fills the output with the next bytes of `d`.
proof fn lemma_run_literal(
    s: Seq<u8>,
    pos: int,
    out: Seq<u8>,
    size: int,
    code: u8,
    bits: int,
    d: Seq<u8>,
    m: int,
)
    requires
        0 <= bits <= 8,
        0 <= pos <= s.len(),
        out.len() <= size,
        size - out.len() <= d.len(),
        m == if bits <= d.len() {
            bits
        } else {
            d.len() as int
        },
        forall|i: u8| i < bits ==> #[trigger] code_bit(code, i),
        s.subrange(pos, s.len() as int) == d.subrange(0, m) + literal_payload(
            d.subrange(m, d.len() as int),
        ),
    ensures
        spec_run(s, pos, out, size, code, bits) == Ok::<Decoded, DecompressError>(
            Decoded { bytes: out + d.subrange(0, size - out.len()), exact: true },
        ),
    decreases s.len() - pos,
{
    let suffix = s.subrange(pos, s.len() as int);
    if out.len() >= size {
        assert(out + d.subrange(0, 0) =~= out);
    } else if bits <= 0 {
        assert(d.len() >= 1);
        assert(suffix =~= literal_payload(d)) by {
            assert(d.subrange(0, d.len() as int) =~= d);
            assert(d.subrange(0, 0) + literal_payload(d.subrange(0, d.len() as int)) =~= literal_payload(
                d,
            ));
        }
        let m2 = group_len(d);
        let head = seq![0xFFu8] + d.subrange(0, m2);
        let rest = literal_payload(d.subrange(m2, d.len() as int));
        assert(literal_payload(d) == head + rest);
        assert(suffix.len() >= 1);
        assert(pos < s.len());
        assert(s[pos] == suffix[0]);
        assert(s[pos] == 0xFFu8);
        lemma_all_ones_bits();
        let tail = s.subrange(pos + 1, s.len() as int);
        assert(tail =~= d.subrange(0, m2) + rest) by {
            assert forall|i: int| 0 <= i < tail.len() implies tail[i] == (d.subrange(0, m2)
                + rest)[i] by {
                assert(tail[i] == suffix[i + 1]);
                assert(suffix[i + 1] == (head + rest)[i + 1]);
            }
        }
        lemma_run_literal(s, pos + 1, out, size, 0xFFu8, 8, d, m2);
    } else {
        assert(m >= 1);
        assert(suffix.len() >= 1);
        assert(pos < s.len());
        assert(s[pos] == suffix[0]);
        assert(suffix[0] == d[0]);
        assert(code_bit(code, (bits - 1) as u8));
        let d2 = d.subrange(1, d.len() as int);
        let m2 = m - 1;
        let rest = literal_payload(d.subrange(m, d.len() as int));
        assert(d2.subrange(m2, d2.len() as int) =~= d.subrange(m, d.len() as int));
        let tail = s.subrange(pos + 1, s.len() as int);
        assert(tail =~= d2.subrange(0, m2) + rest) by {
            assert forall|i: int| 0 <= i < tail.len() implies tail[i] == (d2.subrange(0, m2)
                + rest)[i] by {
                assert(tail[i] == suffix[i + 1]);
                assert(suffix[i + 1] == (d.subrange(0, m) + rest)[i + 1]);
                if i < m2 {
                    assert((d.subrange(0, m) + rest)[i + 1] == d[i + 1]);
                    assert(d2.subrange(0, m2)[i] == d[i + 1]);
                }
            }
        }
        lemma_run_literal(s, pos + 1, out.push(d[0]), size, code, bits - 1, d2, m2);
        assert(out + d.subrange(0, size - out.len()) =~= out.push(d[0]) + d2.subrange(
            0,
            size - out.len() - 1,
        ));
    }
}

/// Law (literal run): a container whose payload is a pure literal stream for
/// `d` decodes to the leading bytes of `d` — the bytes that follow the
/// control bytes, in order, cut off at the declared size.
pub proof fn lemma_literal_payload_decodes(s: Seq<u8>, d: Seq<u8>)
    requires
        s.len() >= 16,
        s.subrange(0, 4) == magic_tag(),
        declared_size(s) <= d.len(),
        s.subrange(16, s.len() as int) == literal_payload(d),
    ensures
        spec_decompress(s) == Ok::<Decoded, DecompressError>(
            Decoded { bytes: d.subrange(0, declared_size(s)), exact: true },
        ),
{
    assert(s.subrange(16, s.len() as int) =~= d.subrange(0, 0) + literal_payload(
        d.subrange(0, d.len() as int),
    )) by {
        assert(d.subrange(0, d.len() as int) =~= d);
    }
    lemma_run_literal(s, 16, Seq::empty(), declared_size(s), 0u8, 0, d, 0);
    assert(Seq::<u8>::empty() + d.subrange(0, declared_size(s)) =~= d.subrange(
        0,
        declared_size(s),
    ));
}

/// Law (round trip): a plaintext encoded as a pure literal stream, with the
/// plaintext's own length declared in the header, decodes back to the
/// plaintext byte for byte.
pub proof fn lemma_literal_round_trip(s: Seq<u8>, d: Seq<u8>)
    requires
        s.len() >= 16,
        s.subrange(0, 4) == magic_tag(),
        declared_size(s) == d.len(),
        s.subrange(16, s.len() as int) == literal_payload(d),
    ensures
        spec_decompress(s) == Ok::<Decoded, DecompressError>(Decoded { bytes: d, exact: true }),
{
    lemma_literal_payload_decodes(s, d);
    assert(d.subrange(0, d.len() as int) =~= d);
}

} // verus!
