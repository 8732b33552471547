use vstd::arithmetic::div_mod::{
    lemma_fundamental_div_mod, lemma_fundamental_div_mod_converse_div,
    lemma_fundamental_div_mod_converse_mod, lemma_mod_division_less_than_divisor,
};
use vstd::prelude::*;

verus! {

/// Bit depths that pack several samples into one byte.
pub open spec fn sub_byte_depth(depth: u8) -> bool {
    depth == 1 || depth == 2 || depth == 4
}

/// How many samples fit in one packed byte.
pub open spec fn samples_per_byte(depth: u8) -> int
    recommends
        sub_byte_depth(depth),
{
    8int / (depth as int)
}

/// How many packed bytes one scanline of `line_width` samples occupies:
/// scanlines are byte-aligned, so a partial trailing byte counts whole.
pub open spec fn bytes_per_row(depth: u8, line_width: int) -> int
    recommends
        sub_byte_depth(depth),
{
    (line_width + samples_per_byte(depth) - 1) / samples_per_byte(depth)
}

/// The mask keeping the low `depth` bits of a byte.
pub open spec fn sample_mask(depth: u8) -> u8 {
    if depth == 1 {
        1
    } else if depth == 2 {
        3
    } else {
        15
    }
}

/// Sample `j` of a packed byte: the highest-order `depth` bits hold the
/// sample that comes first in the scanline.
pub open spec fn sample_of(byte: u8, depth: u8, j: int) -> u8
    recommends
        sub_byte_depth(depth),
        0 <= j < samples_per_byte(depth),
{
    (byte >> (((samples_per_byte(depth) - 1 - j) * depth) as u8)) & sample_mask(depth)
}

/// Length of the unpacked stream: one byte per sample, with each whole row
/// of the packed input contributing `line_width` samples and a trailing
/// partial row one sample per packed bit group.
pub open spec fn unpacked_len(n_bytes: int, depth: u8, line_width: int) -> int
    recommends
        sub_byte_depth(depth),
        n_bytes >= 0,
        line_width >= 0,
{
    if line_width == 0 {
        0
    } else {
        (n_bytes / bytes_per_row(depth, line_width)) * line_width + (n_bytes % bytes_per_row(
            depth,
            line_width,
        )) * samples_per_byte(depth)
    }
}

/// Index of the packed byte that holds sample `k` of the unpacked stream.
pub open spec fn byte_of_sample(depth: u8, line_width: int, k: int) -> int
    recommends
        sub_byte_depth(depth),
        line_width >= 1,
        k >= 0,
{
    (k / line_width) * bytes_per_row(depth, line_width) + (k % line_width) / samples_per_byte(
        depth,
    )
}

/// Position of sample `k` inside the byte that holds it.
pub open spec fn offset_of_sample(depth: u8, line_width: int, k: int) -> int
    recommends
        sub_byte_depth(depth),
        line_width >= 1,
        k >= 0,
{
    (k % line_width) % samples_per_byte(depth)
}

/// Sample `k` of the unpacked stream, read out of the byte that holds it.
pub open spec fn unpacked_at(packed: Seq<u8>, depth: u8, line_width: int, k: int) -> u8
    recommends
        sub_byte_depth(depth),
        line_width >= 1,
        0 <= k < unpacked_len(packed.len() as int, depth, line_width),
{
    sample_of(
        packed[byte_of_sample(depth, line_width, k)],
        depth,
        offset_of_sample(depth, line_width, k),
    )
}

/// The whole unpacked stream, one byte per sample, scanline padding dropped.
pub open spec fn unpacked(packed: Seq<u8>, depth: u8, line_width: int) -> Seq<u8>
    recommends
        sub_byte_depth(depth),
        line_width >= 0,
{
    Seq::new(
        unpacked_len(packed.len() as int, depth, line_width) as nat,
        |k: int| unpacked_at(packed, depth, line_width, k),
    )
}

/// How many samples of a scanline land in the byte at row position `p`:
/// a full byte's worth, except in the row's last byte when the width is not
/// a multiple of the samples per byte.
pub open spec fn samples_in_byte(depth: u8, line_width: int, p: int) -> int
    recommends
        sub_byte_depth(depth),
        line_width >= 1,
        0 <= p < bytes_per_row(depth, line_width),
{
    if line_width - p * samples_per_byte(depth) < samples_per_byte(depth) {
        line_width - p * samples_per_byte(depth)
    } else {
        samples_per_byte(depth)
    }
}

/// The bits of a packed byte that carry `cnt` samples; the rest of the byte
/// is scanline padding.
pub open spec fn meaningful_mask(depth: u8, cnt: int) -> u8
    recommends
        sub_byte_depth(depth),
        1 <= cnt <= samples_per_byte(depth),
{
    (0xffu8 << ((8 - cnt * depth) as u8)) as u8
}

/// `cnt` samples starting at `base` packed back into one byte, each shifted
/// to the position it was extracted from; the remaining bits stay zero.
pub open spec fn repacked_byte(s: Seq<u8>, depth: u8, base: int, cnt: int) -> u8
    recommends
        sub_byte_depth(depth),
        0 <= cnt <= samples_per_byte(depth),
    decreases cnt,
{
    if cnt <= 0 {
        0u8
    } else {
        repacked_byte(s, depth, base, cnt - 1) | ((s[base + cnt - 1] & sample_mask(depth)) << (((
        samples_per_byte(depth) - cnt) * depth) as u8))
    }
}

/// `samples` (one byte each) packed at `depth`: every scanline of
/// `line_width` samples fills whole bytes, with zero padding bits at each
/// row's end.
pub open spec fn packed_of(samples: Seq<u8>, depth: u8, line_width: int) -> Seq<u8>
    recommends
        sub_byte_depth(depth),
        line_width >= 1,
{
    Seq::new(
        (((samples.len() as int) / line_width) * bytes_per_row(depth, line_width)) as nat,
        |i: int|
            repacked_byte(
                samples,
                depth,
                (i / bytes_per_row(depth, line_width)) * line_width + (i % bytes_per_row(
                    depth,
                    line_width,
                )) * samples_per_byte(depth),
                samples_in_byte(depth, line_width, i % bytes_per_row(depth, line_width)),
            ),
    )
}

/// A byte whose samples all stand in `s` from `base` on repacks to the byte
/// itself, with its padding bits masked off.
proof fn lemma_repack(b: u8, depth: u8, s: Seq<u8>, base: int, cnt: int)
    requires
        sub_byte_depth(depth),
        1 <= cnt <= samples_per_byte(depth),
        forall|j: int| 0 <= j < cnt ==> s[base + j] == sample_of(b, depth, j),
    ensures
        repacked_byte(s, depth, base, cnt) == (b & meaningful_mask(depth, cnt)),
    decreases cnt,
{
    reveal_with_fuel(repacked_byte, 2);
    let gsp = samples_per_byte(depth);
    let o8: u8 = ((gsp - cnt) * depth) as u8;
    assert(s[base + cnt - 1] == sample_of(b, depth, cnt - 1));
    assert((gsp - 1 - (cnt - 1)) * depth == (gsp - cnt) * depth);
    if cnt == 1 {
        if depth == 1 {
            assert(o8 == 7);
            assert((0u8 | (((b >> 7u8) & 1u8) & 1u8) << 7u8) == (b & ((0xffu8 << 7u8) as u8)))
                by (bit_vector);
        } else if depth == 2 {
            assert(o8 == 6);
            assert((0u8 | (((b >> 6u8) & 3u8) & 3u8) << 6u8) == (b & ((0xffu8 << 6u8) as u8)))
                by (bit_vector);
        } else {
            assert(o8 == 4);
            assert((0u8 | (((b >> 4u8) & 15u8) & 15u8) << 4u8) == (b & ((0xffu8 << 4u8) as u8)))
                by (bit_vector);
        }
    } else {
        lemma_repack(b, depth, s, base, cnt - 1);
        if depth == 1 {
            assert(o8 as int == 8 - cnt);
            assert(meaningful_mask(depth, cnt - 1) == ((0xffu8 << ((o8 + 1) as u8)) as u8));
            assert(((b & ((0xffu8 << ((o8 + 1) as u8)) as u8)) | (((b >> o8) & 1u8) & 1u8) << o8)
                == (b & ((0xffu8 << o8) as u8))) by (bit_vector)
                requires
                    o8 <= 6,
            ;
        } else if depth == 2 {
            assert(o8 as int == 8 - 2 * cnt);
            assert(meaningful_mask(depth, cnt - 1) == ((0xffu8 << ((o8 + 2) as u8)) as u8));
            assert(((b & ((0xffu8 << ((o8 + 2) as u8)) as u8)) | (((b >> o8) & 3u8) & 3u8) << o8)
                == (b & ((0xffu8 << o8) as u8))) by (bit_vector)
                requires
                    o8 <= 4,
            ;
        } else {
            assert(o8 == 0);
            assert(meaningful_mask(depth, cnt - 1) == ((0xffu8 << 4u8) as u8));
            assert(((b & ((0xffu8 << 4u8) as u8)) | (((b >> 0u8) & 15u8) & 15u8) << 0u8) == (b & ((
            0xffu8 << 0u8) as u8))) by (bit_vector);
        }
    }
}

/// Packing the unpacked stream back at the same depth and width reproduces
/// the packed input byte for byte, up to the padding bits at each
/// scanline's end, which the packing leaves zero: each repacked byte equals
/// the original byte with its padding bits masked off.
pub proof fn lemma_unpack_pack_round_trip(packed: Seq<u8>, depth: u8, line_width: int)
    requires
        sub_byte_depth(depth),
        line_width >= 1,
        (packed.len() as int) % bytes_per_row(depth, line_width) == 0,
    ensures
        packed_of(unpacked(packed, depth, line_width), depth, line_width).len() == packed.len(),
        forall|i: int|
            0 <= i < packed.len() ==> packed_of(unpacked(packed, depth, line_width), depth, line_width)[i]
                == (packed[i] & meaningful_mask(
                depth,
                samples_in_byte(depth, line_width, i % bytes_per_row(depth, line_width)),
            )),
{
    let gsp = samples_per_byte(depth);
    let bpr = bytes_per_row(depth, line_width);
    let n = packed.len() as int;
    let s = unpacked(packed, depth, line_width);
    lemma_row_geometry(depth, line_width);
    let q = n / bpr;
    lemma_fundamental_div_mod(n, bpr);
    assert(n == bpr * q);
    assert(s.len() == q * line_width);
    lemma_fundamental_div_mod_converse_div(q * line_width, line_width, q, 0);
    assert((s.len() as int) / line_width == q);
    assert(q * bpr == bpr * q) by (nonlinear_arith);
    assert(packed_of(s, depth, line_width).len() == n);
    assert forall|i: int| 0 <= i < packed.len() implies packed_of(s, depth, line_width)[i] == (
    packed[i] & meaningful_mask(depth, samples_in_byte(depth, line_width, i % bpr))) by {
        let row = i / bpr;
        let p = i % bpr;
        lemma_fundamental_div_mod(i, bpr);
        lemma_mod_division_less_than_divisor(i, bpr);
        vstd::arithmetic::div_mod::lemma_div_pos_is_pos(i, bpr);
        let base = row * line_width + p * gsp;
        let cnt = samples_in_byte(depth, line_width, p);
        assert(p * gsp <= (bpr - 1) * gsp) by (nonlinear_arith)
            requires
                p <= bpr - 1,
                gsp >= 2,
        ;
        assert(1 <= cnt <= gsp);
        assert(row < q) by (nonlinear_arith)
            requires
                i == bpr * row + p,
                0 <= p < bpr,
                i < n,
                n == bpr * q,
        ;
        assert forall|j: int| 0 <= j < cnt implies s[base + j] == sample_of(packed[i], depth, j) by {
            let k = base + j;
            let r = p * gsp + j;
            assert(0 <= r < line_width);
            lemma_fundamental_div_mod_converse_div(k, line_width, row, r);
            lemma_fundamental_div_mod_converse_mod(k, line_width, row, r);
            lemma_fundamental_div_mod_converse_div(r, gsp, p, j);
            lemma_fundamental_div_mod_converse_mod(r, gsp, p, j);
            assert((row + 1) * line_width <= q * line_width) by (nonlinear_arith)
                requires
                    row + 1 <= q,
                    line_width >= 1,
            ;
            assert((row + 1) * line_width == row * line_width + line_width) by (nonlinear_arith);
            assert(0 <= k < s.len());
            assert(row * bpr == bpr * row) by (nonlinear_arith);
            assert(byte_of_sample(depth, line_width, k) == i);
            assert(offset_of_sample(depth, line_width, k) == j);
        }
        lemma_repack(packed[i], depth, s, base, cnt);
    }
}

/// A scanline of `line_width` samples fills `bytes_per_row` bytes: the first
/// `bytes_per_row - 1` of them completely, the last one at least partially.
proof fn lemma_row_geometry(depth: u8, lw: int)
    requires
        sub_byte_depth(depth),
        lw >= 1,
    ensures
        1 <= bytes_per_row(depth, lw),
        (bytes_per_row(depth, lw) - 1) * samples_per_byte(depth) < lw,
        lw <= bytes_per_row(depth, lw) * samples_per_byte(depth),
{
    let gsp = samples_per_byte(depth);
    let bpr = bytes_per_row(depth, lw);
    lemma_fundamental_div_mod(lw + gsp - 1, gsp);
    lemma_mod_division_less_than_divisor(lw + gsp - 1, gsp);
    let rr = (lw + gsp - 1) % gsp;
    assert(gsp * bpr == lw + gsp - 1 - rr);
    assert((bpr - 1) * gsp == gsp * bpr - gsp) by (nonlinear_arith);
    assert(bpr * gsp == gsp * bpr) by (nonlinear_arith);
    assert(bpr >= 1) by (nonlinear_arith)
        requires
            gsp * bpr >= 1,
            gsp >= 2,
    ;
}

/// Expand a packed scanline-aligned bitstream (1, 2 or 4 bits per sample)
/// into one byte per sample, masking each sample to its low bits and
/// dropping the padding bits at the end of every scanline; at a depth of 8
/// the input already holds one sample per byte and is copied unchanged.
#[verifier::loop_isolation(false)]
pub fn unpack(packed: &Vec<u8>, depth: u8, line_width: usize) -> (r: Vec<u8>)
    requires
        depth == 1 || depth == 2 || depth == 4 || depth == 8,
    ensures
        depth == 8 ==> r@ == packed@,
        sub_byte_depth(depth) ==> r@ == unpacked(packed@, depth, line_width as int),
        sub_byte_depth(depth) && line_width > 0 && (packed@.len() as int) % bytes_per_row(
            depth,
            line_width as int,
        ) == 0 ==> r@.len() == line_width * ((packed@.len() as int) / bytes_per_row(
            depth,
            line_width as int,
        )),
{
    if depth == 8 {
        let mut out: Vec<u8> = Vec::new();
        let mut i: usize = 0;
        while i < packed.len()
            invariant
                i <= packed.len(),
                out@ == packed@.take(i as int),
            decreases packed.len() - i,
        {
            out.push(packed[i]);
            i = i + 1;
        }
        proof {
            assert(out@ =~= packed@);
        }
        return out;
    }
    let spb: usize = (8 / depth) as usize;
    let m: u8 = if depth == 1 {
        1
    } else if depth == 2 {
        3
    } else {
        15
    };
    let ghost gsp: int = samples_per_byte(depth);
    let ghost bpr: int = bytes_per_row(depth, line_width as int);
    let ghost lw: int = line_width as int;
    proof {
        assert(spb as int == gsp);
        assert(m == sample_mask(depth));
        if line_width > 0 {
            lemma_row_geometry(depth, lw);
        }
    }
    let mut out: Vec<u8> = Vec::new();
    let mut line_pos: usize = 0;
    let mut i: usize = 0;
    let ghost mut rows: int = 0;
    let ghost mut rem: int = 0;
    while i < packed.len()
        invariant
            i <= packed.len(),
            line_width == 0 ==> out@.len() == 0 && line_pos == 0,
            line_width > 0 ==> {
                &&& 0 <= rem < bpr
                &&& 0 <= rows
                &&& i as int == rows * bpr + rem
                &&& line_pos as int == rem * gsp
                &&& line_pos < line_width
                &&& out@.len() == rows * lw + rem * gsp
            },
            forall|k: int|
                0 <= k < out@.len() ==> out@[k] == #[trigger] unpacked_at(packed@, depth, lw, k),
        decreases packed.len() - i,
    {
        let byte = packed[i];
        let remaining = line_width - line_pos;
        let count = if remaining < spb {
            remaining
        } else {
            spb
        };
        let ghost base: int = out@.len() as int;
        let mut pxi: usize = 0;
        while pxi < count
            invariant
                pxi <= count,
                out@.len() == base + pxi,
                forall|k: int|
                    0 <= k < base ==> out@[k] == #[trigger] unpacked_at(packed@, depth, lw, k),
                forall|j: int| 0 <= j < pxi ==> out@[base + j] == #[trigger] sample_of(byte, depth, j),
            decreases count - pxi,
        {
            let offset: u8 = ((spb - 1 - pxi) as u8) * depth;
            let px = (byte >> offset) & m;
            proof {
                assert(offset as int == (gsp - 1 - pxi) * depth);
                assert(px == sample_of(byte, depth, pxi as int));
            }
            out.push(px);
            pxi = pxi + 1;
        }
        proof {
            if line_width > 0 {
                assert forall|k: int| base <= k < base + count implies out@[k]
                    == #[trigger] unpacked_at(packed@, depth, lw, k) by {
                    let j = k - base;
                    assert(out@[base + j] == sample_of(byte, depth, j));
                    let r = rem * gsp + j;
                    assert(k == rows * lw + r);
                    assert(0 <= r < lw);
                    lemma_fundamental_div_mod_converse_div(k, lw, rows, r);
                    lemma_fundamental_div_mod_converse_mod(k, lw, rows, r);
                    lemma_fundamental_div_mod_converse_div(r, gsp, rem, j);
                    lemma_fundamental_div_mod_converse_mod(r, gsp, rem, j);
                    assert(byte_of_sample(depth, lw, k) == rows * bpr + rem);
                    assert(offset_of_sample(depth, lw, k) == j);
                }
            }
        }
        line_pos = line_pos + count;
        i = i + 1;
        if line_pos >= line_width {
            line_pos = 0;
            proof {
                if line_width > 0 {
                    assert(rem * gsp + count == lw);
                    let s = lw + gsp - 1 - (rem + 1) * gsp;
                    assert((rem + 1) * gsp == rem * gsp + gsp) by (nonlinear_arith);
                    assert(0 <= s < gsp);
                    lemma_fundamental_div_mod_converse_div(lw + gsp - 1, gsp, rem + 1, s);
                    assert(bpr == rem + 1);
                    assert((rows + 1) * bpr == rows * bpr + bpr) by (nonlinear_arith);
                    assert((rows + 1) * lw == rows * lw + lw) by (nonlinear_arith);
                }
                rows = rows + 1;
                rem = 0;
            }
        } else {
            proof {
                assert(count == spb);
                assert((rem + 1) * gsp == rem * gsp + gsp) by (nonlinear_arith);
                assert((rem + 1) * gsp < lw);
                assert(rem + 1 < bpr) by (nonlinear_arith)
                    requires
                        (rem + 1) * gsp < lw,
                        lw <= bpr * gsp,
                        gsp >= 2,
                ;
                rem = rem + 1;
            }
        }
    }
    proof {
        if line_width == 0 {
            assert(out@ =~= unpacked(packed@, depth, lw));
        } else {
            let n = packed@.len() as int;
            lemma_fundamental_div_mod_converse_div(n, bpr, rows, rem);
            lemma_fundamental_div_mod_converse_mod(n, bpr, rows, rem);
            assert(out@.len() == unpacked_len(n, depth, lw));
            assert(out@ =~= unpacked(packed@, depth, lw));
        }
    }
    out
}

} // verus!
