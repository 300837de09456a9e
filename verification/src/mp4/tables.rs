//! Readers for the individual boxes of an MP4 sample table (`mdhd`, `stts`,
//! `stsz`, `stsc`, `stco`/`co64`, `hdlr`) and of a segment index (`sidx`).
use vstd::prelude::*;
use crate::mp4::boxes::{
    be32_at, be64_at, be_u16, be_u32, be_u64, buffer_ok, in_bounds, spec_be_u16, spec_be_u32, spec_be_u64, Located,
    KIND_CO64,
};

verus! {

/// `x` clamped to the `u64` range, as a saturating operation produces it.
pub open spec fn sat(x: int) -> u64 {
    if x > u64::MAX {
        u64::MAX
    } else if x < 0 {
        0
    } else {
        x as u64
    }
}

pub proof fn lemma_sat_add(total: int, term: int)
    requires
        total >= 0,
        term >= 0,
    ensures
        sat(sat(total) + sat(term)) == sat(total + term),
{
}

/// `a * b`, or `u64::MAX` when the product does not fit.
pub fn sat_mul(a: u64, b: u64) -> (r: u64)
    ensures
        r == sat(a * b),
{
    assert(a * b >= 0) by (nonlinear_arith);
    match a.checked_mul(b) {
        Some(v) => v,
        None => u64::MAX,
    }
}

/// The smaller of two counts.
pub fn min_u64(a: u64, b: u64) -> (r: u64)
    ensures
        r == if a < b {
            a
        } else {
            b
        },
{
    if a < b {
        a
    } else {
        b
    }
}

/// `version` of a FullBox: the first payload byte, when there is one.
pub open spec fn spec_full_box_version(buf: Seq<u8>, b: Located) -> Option<u8> {
    if b.start < b.end {
        Some(buf[b.start as int])
    } else {
        None
    }
}

/// `(timescale, duration_in_timescale_units)` of an `mdhd` box.
pub open spec fn spec_parse_mdhd(buf: Seq<u8>, b: Located) -> Option<(u64, u64)> {
    match spec_full_box_version(buf, b) {
        None => None,
        Some(version) => {
            let s = b.start as int;
            if version == 1 {
                match (spec_be_u64(buf, s + 20), spec_be_u64(buf, s + 28)) {
                    (Some(t), Some(d)) => Some((t, d)),
                    _ => None,
                }
            } else {
                match (spec_be_u32(buf, s + 12), spec_be_u32(buf, s + 16)) {
                    (Some(t), Some(d)) => Some((t as u64, d as u64)),
                    _ => None,
                }
            }
        },
    }
}

/// Sum of `sample_count * sample_delta` over the first `n` entries of an
/// `stts` table whose entries start at `base`.
pub open spec fn stts_sum(buf: Seq<u8>, base: int, n: int) -> int
    decreases n,
{
    if n <= 0 {
        0
    } else {
        stts_sum(buf, base, n - 1) + be32_at(buf, base + 8 * (n - 1)) * be32_at(
            buf,
            base + 8 * (n - 1) + 4,
        )
    }
}

proof fn lemma_stts_sum_nonneg(buf: Seq<u8>, base: int, n: int)
    ensures
        stts_sum(buf, base, n) >= 0,
    decreases n,
{
    if n > 0 {
        lemma_stts_sum_nonneg(buf, base, n - 1);
        let a = be32_at(buf, base + 8 * (n - 1));
        let c = be32_at(buf, base + 8 * (n - 1) + 4);
        assert(a >= 0 && c >= 0);
        assert(a * c >= 0) by (nonlinear_arith)
            requires
                a >= 0,
                c >= 0,
        ;
    }
}

/// Total duration, in timescale units, that an `stts` box describes
/// (saturating at `u64::MAX`); `None` when the table is cut short.
pub open spec fn spec_parse_stts_total(buf: Seq<u8>, b: Located) -> Option<u64> {
    match spec_full_box_version(buf, b) {
        None => None,
        Some(version) => {
            if version != 0 {
                None
            } else {
                match spec_be_u32(buf, b.start + 4) {
                    None => None,
                    Some(count) => {
                        if count == 0 || b.start + 8 + 8 * count <= buf.len() {
                            Some(sat(stts_sum(buf, b.start + 8, count as int)))
                        } else {
                            None
                        }
                    },
                }
            }
        },
    }
}

/// `(uniform_sample_size, sample_count)` of an `stsz` box.
pub open spec fn spec_parse_stsz(buf: Seq<u8>, b: Located) -> Option<(u64, u64)> {
    match spec_full_box_version(buf, b) {
        None => None,
        Some(version) => {
            if version != 0 {
                None
            } else {
                match (spec_be_u32(buf, b.start + 4), spec_be_u32(buf, b.start + 8)) {
                    (Some(u), Some(c)) => Some((u as u64, c as u64)),
                    _ => None,
                }
            }
        },
    }
}

/// The size stored at `at`, or 0 when it lies past the end of the buffer.
pub open spec fn size_or_zero(buf: Seq<u8>, at: int) -> int {
    if at + 4 <= buf.len() {
        be32_at(buf, at)
    } else {
        0
    }
}

/// Sum of the per-sample sizes with index in `[from, to)` of an `stsz`
/// table whose sizes start at `base`; sizes past the buffer count as 0.
pub open spec fn stsz_sum(buf: Seq<u8>, base: int, from: int, to: int) -> int
    decreases to - from,
{
    if to <= from {
        0
    } else {
        stsz_sum(buf, base, from, to - 1) + size_or_zero(buf, base + 4 * (to - 1))
    }
}

proof fn lemma_stsz_sum_nonneg(buf: Seq<u8>, base: int, from: int, to: int)
    ensures
        stsz_sum(buf, base, from, to) >= 0,
    decreases to - from,
{
    if to > from {
        lemma_stsz_sum_nonneg(buf, base, from, to - 1);
    }
}

/// Bytes taken by the samples with index in `[from, to)`.
pub open spec fn spec_stsz_range_bytes(
    buf: Seq<u8>,
    b: Located,
    uniform: u64,
    count: u64,
    from: u64,
    to: u64,
) -> u64 {
    if to <= from {
        0
    } else if uniform > 0 {
        sat(uniform * (to - from))
    } else {
        let span_end = if to < count {
            to
        } else {
            count
        };
        if span_end <= from {
            0
        } else {
            sat(stsz_sum(buf, b.start + 12, from as int, span_end as int))
        }
    }
}

/// `(first_chunk, samples_per_chunk)` runs of an `stsc` box.
pub open spec fn spec_parse_stsc(buf: Seq<u8>, b: Located) -> Option<Seq<(u64, u64)>> {
    match spec_full_box_version(buf, b) {
        None => None,
        Some(version) => {
            if version != 0 {
                None
            } else {
                match spec_be_u32(buf, b.start + 4) {
                    None => None,
                    Some(count) => {
                        if count == 0 || b.start + 12 * count + 4 <= buf.len() {
                            Some(
                                Seq::new(
                                    count as nat,
                                    |i: int|
                                        (
                                            be32_at(buf, b.start + 8 + 12 * i) as u64,
                                            be32_at(buf, b.start + 8 + 12 * i + 4) as u64,
                                        ),
                                ),
                            )
                        } else {
                            None
                        }
                    },
                }
            }
        },
    }
}

/// Chunk offsets of an `stco` (32-bit) or `co64` (64-bit) box.
pub open spec fn spec_parse_chunk_offsets(buf: Seq<u8>, b: Located) -> Option<Seq<u64>> {
    match spec_full_box_version(buf, b) {
        None => None,
        Some(version) => {
            if version != 0 {
                None
            } else {
                match spec_be_u32(buf, b.start + 4) {
                    None => None,
                    Some(count) => {
                        let w: int = if b.kind == KIND_CO64 {
                            8
                        } else {
                            4
                        };
                        if count == 0 || b.start + 8 + w * count <= buf.len() {
                            Some(
                                Seq::new(
                                    count as nat,
                                    |i: int|
                                        if w == 8 {
                                            be64_at(buf, b.start + 8 + 8 * i) as u64
                                        } else {
                                            be32_at(buf, b.start + 8 + 4 * i) as u64
                                        },
                                ),
                            )
                        } else {
                            None
                        }
                    },
                }
            }
        },
    }
}

/// `handler_type` of an `hdlr` box, e.g. `soun` or `vide`.
pub open spec fn spec_parse_handler(buf: Seq<u8>, b: Located) -> Option<u32> {
    if b.start + 12 > b.end {
        None
    } else {
        Some(be32_at(buf, b.start + 8) as u32)
    }
}

/// `version` + `flags` of a FullBox, or `None` when the box is empty.
pub fn full_box_version(buf: &[u8], b: &Located) -> (r: Option<u8>)
    requires
        in_bounds(*b, buf@.len() as int),
    ensures
        r == spec_full_box_version(buf@, *b),
{
    if b.start < b.end {
        Some(buf[b.start])
    } else {
        None
    }
}

/// `(timescale, duration_in_timescale_units)` from an `mdhd` box.
pub fn parse_mdhd(buf: &[u8], b: &Located) -> (r: Option<(u64, u64)>)
    requires
        in_bounds(*b, buf@.len() as int),
        buffer_ok(buf@),
    ensures
        r == spec_parse_mdhd(buf@, *b),
{
    let version = match full_box_version(buf, b) {
        Some(v) => v,
        None => return None,
    };
    if version == 1 {
        let t = match be_u64(buf, b.start + 20) {
            Some(v) => v,
            None => return None,
        };
        let d = match be_u64(buf, b.start + 28) {
            Some(v) => v,
            None => return None,
        };
        Some((t, d))
    } else {
        let t = match be_u32(buf, b.start + 12) {
            Some(v) => v,
            None => return None,
        };
        let d = match be_u32(buf, b.start + 16) {
            Some(v) => v,
            None => return None,
        };
        Some((t as u64, d as u64))
    }
}

/// Total duration in timescale units from an `stts` box.
pub fn parse_stts_total(buf: &[u8], b: &Located) -> (r: Option<u64>)
    requires
        in_bounds(*b, buf@.len() as int),
        buffer_ok(buf@),
    ensures
        r == spec_parse_stts_total(buf@, *b),
{
    match full_box_version(buf, b) {
        Some(v) => {
            if v != 0 {
                return None;
            }
        },
        None => return None,
    }
    let count = match be_u32(buf, b.start + 4) {
        Some(c) => c as usize,
        None => return None,
    };
    let base = b.start + 8;
    let ghost g = buf@;
    let mut total: u64 = 0;
    let mut i: usize = 0;
    while i < count
        invariant
            g == buf@,
            buffer_ok(g),
            base == b.start + 8,
            b.start <= g.len(),
            count <= u32::MAX,
            i <= count,
            i == 0 || base + 8 * i <= g.len(),
            total == sat(stts_sum(g, base as int, i as int)),
            spec_full_box_version(g, *b) == Some(0u8),
            spec_be_u32(g, b.start + 4) == Some(count as u32),
            in_bounds(*b, g.len() as int),
        decreases count - i,
    {
        let at = base + i * 8;
        let samples = match be_u32(buf, at) {
            Some(v) => v as u64,
            None => {
                assert(b.start + 8 + 8 * count > g.len());
                return None;
            },
        };
        let delta = match be_u32(buf, at + 4) {
            Some(v) => v as u64,
            None => {
                assert(b.start + 8 + 8 * count > g.len());
                return None;
            },
        };
        proof {
            lemma_stts_sum_nonneg(g, base as int, i as int);
            assert(samples * delta >= 0) by (nonlinear_arith);
            lemma_sat_add(stts_sum(g, base as int, i as int), samples * delta);
        }
        total = total.saturating_add(sat_mul(samples, delta));
        i = i + 1;
    }
    Some(total)
}

/// `(uniform_sample_size, sample_count)` from an `stsz` box. A non-zero
/// uniform size means per-sample sizes are not stored.
pub fn parse_stsz(buf: &[u8], b: &Located) -> (r: Option<(u64, u64)>)
    requires
        in_bounds(*b, buf@.len() as int),
        buffer_ok(buf@),
    ensures
        r == spec_parse_stsz(buf@, *b),
{
    match full_box_version(buf, b) {
        Some(v) => {
            if v != 0 {
                return None;
            }
        },
        None => return None,
    }
    let u = match be_u32(buf, b.start + 4) {
        Some(v) => v,
        None => return None,
    };
    let c = match be_u32(buf, b.start + 8) {
        Some(v) => v,
        None => return None,
    };
    Some((u as u64, c as u64))
}

/// Sum of the sample sizes in `[from, to)` from an `stsz` box.
pub fn stsz_range_bytes(buf: &[u8], b: &Located, uniform: u64, count: u64, from: u64, to: u64) -> (r:
    u64)
    requires
        in_bounds(*b, buf@.len() as int),
        buffer_ok(buf@),
        count <= u32::MAX,
    ensures
        r == spec_stsz_range_bytes(buf@, *b, uniform, count, from, to),
{
    if to <= from {
        return 0;
    }
    if uniform > 0 {
        return sat_mul(uniform, to - from);
    }
    let span_end = min_u64(to, count);
    if span_end <= from {
        return 0;
    }
    let ghost g = buf@;
    let ghost base = b.start + 12;
    let len = buf.len() as u64;
    let mut total: u64 = 0;
    let mut idx = from;
    while idx < span_end
        invariant
            g == buf@,
            buffer_ok(g),
            len == g.len(),
            base == b.start + 12,
            b.start <= g.len(),
            from <= idx <= span_end <= count <= u32::MAX,
            total == sat(stsz_sum(g, base, from as int, idx as int)),
        decreases span_end - idx,
    {
        let at = (b.start as u64) + 12 + idx * 4;
        let size: u64 = if at <= len {
            match be_u32(buf, at as usize) {
                Some(v) => v as u64,
                None => 0,
            }
        } else {
            0
        };
        assert(size == size_or_zero(g, base + 4 * idx));
        proof {
            lemma_stsz_sum_nonneg(g, base, from as int, idx as int);
            lemma_sat_add(stsz_sum(g, base, from as int, idx as int), size as int);
        }
        total = total.saturating_add(size);
        idx = idx + 1;
    }
    total
}

/// `(first_chunk, samples_per_chunk)` runs from an `stsc` box.
pub fn parse_stsc(buf: &[u8], b: &Located) -> (r: Option<Vec<(u64, u64)>>)
    requires
        in_bounds(*b, buf@.len() as int),
        buffer_ok(buf@),
    ensures
        match spec_parse_stsc(buf@, *b) {
            None => r is None,
            Some(runs) => r matches Some(v) && v@ == runs,
        },
{
    match full_box_version(buf, b) {
        Some(v) => {
            if v != 0 {
                return None;
            }
        },
        None => return None,
    }
    let count = match be_u32(buf, b.start + 4) {
        Some(c) => c as usize,
        None => return None,
    };
    let ghost g = buf@;
    let ghost runs = Seq::new(
        count as nat,
        |i: int|
            (be32_at(g, b.start + 8 + 12 * i) as u64, be32_at(g, b.start + 8 + 12 * i + 4) as u64),
    );
    let mut out: Vec<(u64, u64)> = Vec::new();
    let mut i: usize = 0;
    while i < count
        invariant
            g == buf@,
            buffer_ok(g),
            b.start <= g.len(),
            count <= u32::MAX,
            i <= count,
            i == 0 || b.start + 12 * i + 4 <= g.len(),
            out@ == runs.take(i as int),
            spec_full_box_version(g, *b) == Some(0u8),
            spec_be_u32(g, b.start + 4) == Some(count as u32),
            in_bounds(*b, g.len() as int),
            runs == Seq::new(
                count as nat,
                |i: int|
                    (
                        be32_at(g, b.start + 8 + 12 * i) as u64,
                        be32_at(g, b.start + 8 + 12 * i + 4) as u64,
                    ),
            ),
        decreases count - i,
    {
        let at = b.start + 8 + i * 12;
        let first = match be_u32(buf, at) {
            Some(v) => v as u64,
            None => {
                assert(b.start + 12 * count + 4 > g.len());
                return None;
            },
        };
        let per = match be_u32(buf, at + 4) {
            Some(v) => v as u64,
            None => {
                assert(b.start + 12 * count + 4 > g.len());
                return None;
            },
        };
        out.push((first, per));
        i = i + 1;
        assert(out@ =~= runs.take(i as int));
    }
    assert(runs.take(count as int) =~= runs);
    Some(out)
}

/// Chunk offsets from `stco` (32-bit) or `co64` (64-bit).
pub fn parse_chunk_offsets(buf: &[u8], b: &Located) -> (r: Option<Vec<u64>>)
    requires
        in_bounds(*b, buf@.len() as int),
        buffer_ok(buf@),
    ensures
        match spec_parse_chunk_offsets(buf@, *b) {
            None => r is None,
            Some(offsets) => r matches Some(v) && v@ == offsets,
        },
{
    match full_box_version(buf, b) {
        Some(v) => {
            if v != 0 {
                return None;
            }
        },
        None => return None,
    }
    let count = match be_u32(buf, b.start + 4) {
        Some(c) => c as usize,
        None => return None,
    };
    let wide = b.is(KIND_CO64);
    let w: usize = if wide {
        8
    } else {
        4
    };
    let ghost g = buf@;
    let ghost offsets = Seq::new(
        count as nat,
        |i: int|
            if w == 8 {
                be64_at(g, b.start + 8 + 8 * i) as u64
            } else {
                be32_at(g, b.start + 8 + 4 * i) as u64
            },
    );
    let mut out: Vec<u64> = Vec::new();
    let mut i: usize = 0;
    while i < count
        invariant
            g == buf@,
            buffer_ok(g),
            b.start <= g.len(),
            count <= u32::MAX,
            w == 8 || w == 4,
            wide == (w == 8),
            i <= count,
            i == 0 || b.start + 8 + w * i <= g.len(),
            out@ == offsets.take(i as int),
            spec_full_box_version(g, *b) == Some(0u8),
            spec_be_u32(g, b.start + 4) == Some(count as u32),
            in_bounds(*b, g.len() as int),
            wide == (b.kind == KIND_CO64),
            offsets == Seq::new(
                count as nat,
                |i: int|
                    if w == 8 {
                        be64_at(g, b.start + 8 + 8 * i) as u64
                    } else {
                        be32_at(g, b.start + 8 + 4 * i) as u64
                    },
            ),
        decreases count - i,
    {
        let at = b.start + 8 + i * w;
        assert(at == b.start + 8 + w * i) by (nonlinear_arith)
            requires
                at == b.start + 8 + i * w,
        ;
        let value = if wide {
            match be_u64(buf, at) {
                Some(v) => v,
                None => {
                    assert(b.start + 8 + w * count > g.len()) by (nonlinear_arith)
                        requires
                            at == b.start + 8 + i * w,
                            at + 8 > g.len(),
                            w == 8,
                            i < count,
                    ;
                    return None;
                },
            }
        } else {
            match be_u32(buf, at) {
                Some(v) => v as u64,
                None => {
                    assert(b.start + 8 + w * count > g.len()) by (nonlinear_arith)
                        requires
                            at == b.start + 8 + i * w,
                            at + 4 > g.len(),
                            w == 4,
                            i < count,
                    ;
                    return None;
                },
            }
        };
        assert(value == offsets[i as int]);
        out.push(value);
        i = i + 1;
        assert(b.start + 8 + w * i <= g.len()) by (nonlinear_arith)
            requires
                at == b.start + 8 + (i - 1) * w,
                at + w <= g.len(),
        ;
        assert(out@ =~= offsets.take(i as int));
    }
    assert(offsets.take(count as int) =~= offsets);
    Some(out)
}

/// `handler_type` of a track, e.g. `soun` / `vide`.
pub fn parse_handler(buf: &[u8], b: &Located) -> (r: Option<u32>)
    requires
        in_bounds(*b, buf@.len() as int),
        buffer_ok(buf@),
    ensures
        r == spec_parse_handler(buf@, *b),
{
    if b.end < b.start + 12 {
        return None;
    }
    be_u32(buf, b.start + 8)
}

/// What a segment index says about the whole object: where its presentation
/// ends, in `timescale` units, and how large a complete file must be.
#[derive(Clone, Copy, Debug)]
pub struct Sidx {
    /// `earliest_presentation_time` plus every subsegment duration
    /// (saturating).
    pub end_units: u64,
    /// Units per second; never zero.
    pub timescale: u64,
    /// `sidx.end + first_offset + Σ referenced_size`: the size a complete
    /// file reaches (saturating).
    pub expected_size: u64,
}

/// Sum of the `u32` fields found `field` bytes into each of the first `n`
/// 12-byte entries starting at `base`.
pub open spec fn sidx_sum(buf: Seq<u8>, base: int, n: int, field: int) -> int
    decreases n,
{
    if n <= 0 {
        0
    } else {
        sidx_sum(buf, base, n - 1, field) + be32_at(buf, base + 12 * (n - 1) + field)
    }
}

/// Sum of the `referenced_size` fields (the low 31 bits of the first word)
/// of the first `n` 12-byte entries starting at `base`.
pub open spec fn sidx_size_sum(buf: Seq<u8>, base: int, n: int) -> int
    decreases n,
{
    if n <= 0 {
        0
    } else {
        sidx_size_sum(buf, base, n - 1) + be32_at(buf, base + 12 * (n - 1)) % 0x8000_0000
    }
}

proof fn lemma_sidx_size_sum_bound(buf: Seq<u8>, base: int, n: int)
    ensures
        0 <= sidx_size_sum(buf, base, n) <= (if n < 0 {
            0
        } else {
            n
        }) * 0x1_0000_0000,
    decreases n,
{
    if n > 0 {
        lemma_sidx_size_sum_bound(buf, base, n - 1);
    }
}

proof fn lemma_sidx_sum_bound(buf: Seq<u8>, base: int, n: int, field: int)
    ensures
        0 <= sidx_sum(buf, base, n, field) <= (if n < 0 {
            0
        } else {
            n
        }) * 0x1_0000_0000,
    decreases n,
{
    if n > 0 {
        lemma_sidx_sum_bound(buf, base, n - 1, field);
    }
}

/// `(earliest_presentation_time, first_offset, offset of reference_count,
/// offset of the first entry)` for the given `sidx` version.
pub open spec fn sidx_header(buf: Seq<u8>, b: Located, version: u8) -> Option<
    (u64, u64, int, int),
> {
    let s = b.start as int;
    if version == 0 {
        match (spec_be_u32(buf, s + 12), spec_be_u32(buf, s + 16)) {
            (Some(e), Some(f)) => Some((e as u64, f as u64, s + 22, s + 24)),
            _ => None,
        }
    } else {
        match (spec_be_u64(buf, s + 12), spec_be_u64(buf, s + 20)) {
            (Some(e), Some(f)) => Some((e, f, s + 30, s + 32)),
            _ => None,
        }
    }
}

/// The segment index a `sidx` box describes (ISO 14496-12 layout:
/// `version/flags reference_ID timescale earliest_presentation_time
/// first_offset reserved(16) reference_count(16)`, then 12-byte entries of
/// `reference_type(1) referenced_size(31) subsegment_duration(32)
/// sap(32)`).
pub open spec fn spec_parse_sidx(buf: Seq<u8>, b: Located) -> Option<Sidx> {
    match spec_full_box_version(buf, b) {
        None => None,
        Some(version) => match spec_be_u32(buf, b.start + 8) {
            None => None,
            Some(timescale) => {
                if timescale == 0 {
                    None
                } else {
                    match sidx_header(buf, b, version) {
                        None => None,
                        Some((earliest, first_offset, count_at, entries_at)) => {
                            match spec_be_u16(buf, count_at) {
                                None => None,
                                Some(raw) => {
                                    let count = raw as int;
                                    if count == 0 || entries_at + 12 * (count - 1) + 8
                                        <= buf.len() {
                                        Some(
                                            Sidx {
                                                end_units: sat(
                                                    earliest + sidx_sum(buf, entries_at, count, 4),
                                                ),
                                                timescale: timescale as u64,
                                                expected_size: sat(
                                                    sat(b.end + first_offset) + sidx_size_sum(
                                                        buf,
                                                        entries_at,
                                                        count,
                                                    ),
                                                ),
                                            },
                                        )
                                    } else {
                                        None
                                    }
                                },
                            }
                        },
                    }
                }
            },
        },
    }
}

/// Parse a `sidx` box.
pub fn parse_sidx(buf: &[u8], b: &Located) -> (r: Option<Sidx>)
    requires
        in_bounds(*b, buf@.len() as int),
        buffer_ok(buf@),
    ensures
        r == spec_parse_sidx(buf@, *b),
{
    let version = match full_box_version(buf, b) {
        Some(v) => v,
        None => return None,
    };
    let timescale = match be_u32(buf, b.start + 8) {
        Some(v) => v as u64,
        None => return None,
    };
    if timescale == 0 {
        return None;
    }
    let (earliest, first_offset, count_at, entries_at) = if version == 0 {
        let e = match be_u32(buf, b.start + 12) {
            Some(v) => v as u64,
            None => return None,
        };
        let f = match be_u32(buf, b.start + 16) {
            Some(v) => v as u64,
            None => return None,
        };
        (e, f, b.start + 22, b.start + 24)
    } else {
        let e = match be_u64(buf, b.start + 12) {
            Some(v) => v,
            None => return None,
        };
        let f = match be_u64(buf, b.start + 20) {
            Some(v) => v,
            None => return None,
        };
        (e, f, b.start + 30, b.start + 32)
    };
    let raw = match be_u16(buf, count_at) {
        Some(v) => v,
        None => return None,
    };
    let count = raw as usize;
    let ghost g = buf@;
    let mut duration: u64 = 0;
    let mut referenced: u64 = 0;
    let mut at = entries_at;
    let mut i: usize = 0;
    while i < count
        invariant
            g == buf@,
            buffer_ok(g),
            count <= u16::MAX,
            entries_at <= g.len() + 32,
            i <= count,
            at == entries_at + 12 * i,
            i == 0 || at <= g.len() + 4,
            duration == sidx_sum(g, entries_at as int, i as int, 4),
            referenced == sidx_size_sum(g, entries_at as int, i as int),
            spec_full_box_version(g, *b) == Some(version),
            spec_be_u32(g, b.start + 8) == Some(timescale as u32),
            timescale != 0,
            timescale <= u32::MAX,
            sidx_header(g, *b, version) == Some(
                (earliest, first_offset, count_at as int, entries_at as int),
            ),
            spec_be_u16(g, count_at as int) == Some(raw),
            count == raw,
            in_bounds(*b, g.len() as int),
        decreases count - i,
    {
        let size = match be_u32(buf, at) {
            Some(v) => {
                assert(v & 0x7fff_ffff == v % 0x8000_0000) by (bit_vector);
                (v & 0x7fff_ffff) as u64
            },
            None => {
                assert(entries_at + 12 * (count - 1) + 8 > g.len());
                return None;
            },
        };
        let sub = match be_u32(buf, at + 4) {
            Some(v) => v as u64,
            None => {
                assert(entries_at + 12 * (count - 1) + 8 > g.len());
                return None;
            },
        };
        proof {
            lemma_sidx_sum_bound(g, entries_at as int, i as int, 4);
            lemma_sidx_size_sum_bound(g, entries_at as int, i as int);
            assert(i * 0x1_0000_0000 <= 0x1_0000 * 0x1_0000_0000) by (nonlinear_arith)
                requires
                    i < 0x1_0000,
            ;
        }
        referenced = referenced + size;
        duration = duration + sub;
        at = at + 12;
        i = i + 1;
    }
    let expected_size = (b.end as u64).saturating_add(first_offset).saturating_add(referenced);
    Some(Sidx { end_units: earliest.saturating_add(duration), timescale, expected_size })
}

/// Index of the `stsc` run that chunk `c` (1-based) falls in, found by
/// advancing from run `j` while the next run has already started.
pub open spec fn run_index(runs: Seq<(u64, u64)>, c: int, j: int) -> int
    decreases runs.len() - j,
{
    if 0 <= j && j + 1 < runs.len() && runs[j + 1].0 <= c {
        run_index(runs, c, j + 1)
    } else {
        j
    }
}

/// Samples held by chunk `c` (1-based).
pub open spec fn samples_in_chunk(runs: Seq<(u64, u64)>, c: int) -> int {
    runs[run_index(runs, c, 0)].1 as int
}

/// Samples held by chunks `1..=n`.
pub open spec fn samples_through(runs: Seq<(u64, u64)>, n: int) -> int
    decreases n,
{
    if n <= 0 {
        0
    } else {
        samples_through(runs, n - 1) + samples_in_chunk(runs, n)
    }
}

proof fn lemma_run_index_bounds(runs: Seq<(u64, u64)>, c: int, j: int)
    requires
        0 <= j < runs.len(),
    ensures
        j <= run_index(runs, c, j) < runs.len(),
    decreases runs.len() - j,
{
    if j + 1 < runs.len() && runs[j + 1].0 <= c {
        lemma_run_index_bounds(runs, c, j + 1);
    }
}

/// Advancing for an earlier chunk first and then for a later one ends where
/// advancing for the later chunk directly does.
proof fn lemma_run_index_monotone(runs: Seq<(u64, u64)>, c: int, d: int, j: int)
    requires
        0 <= j,
        c <= d,
    ensures
        run_index(runs, d, run_index(runs, c, j)) == run_index(runs, d, j),
    decreases runs.len() - j,
{
    if j + 1 < runs.len() && runs[j + 1].0 <= c {
        lemma_run_index_monotone(runs, c, d, j + 1);
    }
}

proof fn lemma_samples_through_nonneg(runs: Seq<(u64, u64)>, n: int)
    ensures
        samples_through(runs, n) >= 0,
    decreases n,
{
    if n > 0 {
        lemma_samples_through_nonneg(runs, n - 1);
    }
}

/// `(offset of the last chunk, index of its first sample, samples it
/// holds)`, or `None` without chunks or runs.
pub open spec fn spec_last_chunk(offsets: Seq<u64>, runs: Seq<(u64, u64)>) -> Option<
    (u64, u64, u64),
> {
    if offsets.len() == 0 || runs.len() == 0 {
        None
    } else {
        let n = offsets.len() as int;
        Some(
            (
                offsets.last(),
                sat(samples_through(runs, n - 1)),
                samples_in_chunk(runs, n) as u64,
            ),
        )
    }
}

/// Offset of the last chunk, the index of its first sample, and how many
/// samples it holds. `stsc` maps chunk number ranges to a sample count per
/// chunk.
pub fn last_chunk(offsets: &[u64], runs: &[(u64, u64)]) -> (r: Option<(u64, u64, u64)>)
    ensures
        r == spec_last_chunk(offsets@, runs@),
{
    let n = offsets.len();
    if n == 0 || runs.len() == 0 {
        return None;
    }
    let ghost rs = runs@;
    let mut samples_before: u64 = 0;
    let mut samples_per_chunk: u64 = runs[0].1;
    let mut run_idx: usize = 0;
    let mut k: usize = 0;
    while k < n
        invariant
            rs == runs@,
            rs.len() > 0,
            n == offsets@.len(),
            n >= 1,
            k <= n,
            run_idx < rs.len(),
            run_index(rs, k + 1, run_idx as int) == run_index(rs, k + 1, 0),
            samples_before == sat(samples_through(rs, if k < n {
                k as int
            } else {
                n - 1
            })),
            k > 0 ==> samples_per_chunk == samples_in_chunk(rs, k as int),
        decreases n - k,
    {
        let chunk_no = k as u64 + 1;
        while run_idx < runs.len() - 1 && runs[run_idx + 1].0 <= chunk_no
            invariant
                rs == runs@,
                rs.len() > 0,
                run_idx < rs.len(),
                chunk_no == k + 1,
                run_index(rs, k + 1, run_idx as int) == run_index(rs, k + 1, 0),
            decreases rs.len() - run_idx,
        {
            run_idx = run_idx + 1;
        }
        assert(run_idx == run_index(rs, k + 1, 0));
        samples_per_chunk = runs[run_idx].1;
        proof {
            lemma_samples_through_nonneg(rs, k as int);
            lemma_sat_add(samples_through(rs, k as int), samples_per_chunk as int);
            lemma_run_index_monotone(rs, k + 1, k + 2, 0);
        }
        if k + 1 < n {
            samples_before = samples_before.saturating_add(samples_per_chunk);
        }
        k = k + 1;
    }
    Some((offsets[offsets.len() - 1], samples_before, samples_per_chunk))
}

} // verus!
