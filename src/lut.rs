//! Evaluation of lut8 / lut16 transforms: input curves, a two-corner blend on
//! the colour lookup grid, and output curves. All arithmetic is exact: a lut16
//! result is a fraction, a lut8 result an entry of its output table.
use vstd::prelude::*;

use crate::error::IccError;
use crate::numbers::S15Fixed16Number;
use crate::tags::{Mft1, Mft2};

verus! {

/// A lut16 output value, exactly `numerator / denominator`, in 0 ..= 65535.
#[derive(Debug, Clone, Copy, PartialEq, Eq, Structural)]
pub struct LutValue {
    pub numerator: u128,
    pub denominator: u128,
}

/// The value is a fraction of at most 65535 whose denominator is positive and
/// at most 2^96.
pub open spec fn small_value(v: LutValue) -> bool {
    &&& 1 <= v.denominator <= 0x1_0000_0000_0000_0000_0000_0000
    &&& v.numerator <= 65535 * v.denominator
}

pub open spec fn pow(b: int, e: nat) -> int
    decreases e,
{
    if e == 0 {
        1
    } else {
        pow(b, (e - 1) as nat) * b
    }
}

pub open spec fn min(a: int, b: int) -> int {
    if a < b {
        a
    } else {
        b
    }
}

/// Grid index below a sample on an axis with `g` points; the sample's domain
/// is `d` (65536 for 16-bit tables, 255 for 8-bit ones). Clamped to `g - 1`.
pub open spec fn grid_low(s: int, g: int, d: int) -> int {
    min(s * g / d, g - 1)
}

/// Grid index above a sample: one past `grid_low`, clamped to `g - 1`.
pub open spec fn grid_high(s: int, g: int, d: int) -> int {
    min(grid_low(s, g, d) + 1, g - 1)
}

/// The sample's fractional position between the two grid indices, over `d`.
pub open spec fn grid_frac(s: int, g: int, d: int) -> int {
    (s * g) % d
}

/// Mixed-radix grid index of the lower (or upper) corner: the first channel is
/// the most significant digit.
pub open spec fn corner(s: Seq<u32>, g: int, d: int, upper: bool) -> int
    decreases s.len(),
{
    if s.len() == 0 {
        0
    } else {
        let digit = if upper {
            grid_high(s.last() as int, g, d)
        } else {
            grid_low(s.last() as int, g, d)
        };
        corner(s.drop_last(), g, d, upper) * g + digit
    }
}

/// Product of the per-axis fractional positions (over `d` each).
pub open spec fn weight(s: Seq<u32>, g: int, d: int) -> int
    decreases s.len(),
{
    if s.len() == 0 {
        1
    } else {
        weight(s.drop_last(), g, d) * grid_frac(s.last() as int, g, d)
    }
}

/// `low * (1 - W) + high * W` with `W = w / scale`, times `scale`.
pub open spec fn blend(low: int, high: int, w: int, scale: int) -> int {
    low * (scale - w) + high * w
}

/// The input-table entry that byte `x` picks in a curve of `n` entries:
/// `x * 257 / n`, clamped to the last entry.
pub open spec fn pre16_index(n: int, x: int) -> int {
    min(x * 257 / n, n - 1)
}

/// Stage A of a lut16: the input curve of channel `k` at byte `x`. The byte is
/// widened to `x * 257`; its quotient by the entry count picks the entry, and
/// the remainder, over `65535 / entries`, weighs the next one. The weight is
/// capped at 1 (remainder at most `65535 / entries`), which matters only for
/// curves of more than 256 entries: the sample then stays between the two
/// entries instead of running past the next one, and so within 0 ..= 65535.
/// The result is truncated toward the first entry.
pub open spec fn pre16(m: Mft2, k: int, x: int) -> int {
    let n = m.input_table_enteries as int;
    let v = x * 257;
    let i = pre16_index(n, x);
    let i2 = min(i + 1, n - 1);
    let delta = 65535int / n;
    let w = min(v % n, delta);
    let t0 = m.input_table@[k * n + i] as int;
    let t1 = m.input_table@[k * n + i2] as int;
    if t1 >= t0 {
        t0 + (t1 - t0) * w / delta
    } else {
        t0 - (t0 - t1) * w / delta
    }
}

/// Stage C of a lut16: output curve `j` at the blended value `b / scale`.
pub open spec fn post16(m: Mft2, j: int, b: int, scale: int) -> LutValue {
    let n = m.output_table_enteries as int;
    let q = scale * 65535;
    let x = b * (n - 1);
    let o = min(x / q, n - 1);
    let f = x % q;
    let o2 = min(o + 1, n - 1);
    let u0 = m.output_table@[j * n + o] as int;
    let u1 = m.output_table@[j * n + o2] as int;
    LutValue { numerator: (u0 * (q - f) + u1 * f) as u128, denominator: q as u128 }
}

/// The pre-curve samples of a lut16 for the input bytes `xs`.
pub open spec fn pre16_all(m: Mft2, xs: Seq<u8>) -> Seq<u32> {
    Seq::new(xs.len(), |k: int| pre16(m, k, xs[k] as int) as u32)
}

/// Stage B of a lut16 for output channel `j`: the grid value times
/// `65536^N`.
pub open spec fn grid_value16(m: Mft2, xs: Seq<u8>, j: int) -> int {
    let s = pre16_all(m, xs);
    let g = m.number_of_clut_grid_points as int;
    let mc = m.output_channels as int;
    let low = m.clut_values@[corner(s, g, 65536, false) * mc + j] as int;
    let high = m.clut_values@[corner(s, g, 65536, true) * mc + j] as int;
    blend(low, high, weight(s, g, 65536), pow(65536, xs.len()))
}

/// Output channel `j` of a lut16 for the input bytes `xs`.
pub open spec fn lut16_value(m: Mft2, xs: Seq<u8>, j: int) -> LutValue {
    post16(m, j, grid_value16(m, xs, j), pow(65536, xs.len()))
}

/// All output channels of a lut16 for the input bytes `xs`.
pub open spec fn lut16_values(m: Mft2, xs: Seq<u8>) -> Seq<LutValue> {
    Seq::new(m.output_channels as nat, |j: int| lut16_value(m, xs, j))
}

/// The pre-curve samples of a lut8: its input tables read at the bytes.
pub open spec fn pre8_all(m: Mft1, xs: Seq<u8>) -> Seq<u32> {
    Seq::new(xs.len(), |k: int| m.input_table@[k * 256 + xs[k]] as u32)
}

/// Output channel `j` of a lut8 for the input bytes `xs`: the blend, rounded
/// down and clamped to 255, looks up the output table.
pub open spec fn lut8_value(m: Mft1, xs: Seq<u8>, j: int) -> u8 {
    m.output_table@[j * 256 + min(grid_value8(m, xs, j) / pow(255, xs.len()), 255)]
}

/// Stage B of a lut8 for output channel `j`: the grid value times `255^N`.
pub open spec fn grid_value8(m: Mft1, xs: Seq<u8>, j: int) -> int {
    let s = pre8_all(m, xs);
    let g = m.number_of_clut_grid_points as int;
    let mc = m.output_channels as int;
    let low = m.clut_values@[corner(s, g, 255, false) * mc + j] as int;
    let high = m.clut_values@[corner(s, g, 255, true) * mc + j] as int;
    blend(low, high, weight(s, g, 255), pow(255, xs.len()))
}

/// All output channels of a lut8 for the input bytes `xs`.
pub open spec fn lut8_values(m: Mft1, xs: Seq<u8>) -> Seq<u8> {
    Seq::new(m.output_channels as nat, |j: int| lut8_value(m, xs, j))
}

/// The tables of a lut16 have the sizes its header declares, and it has one
/// to four input channels and at least one output channel.
pub open spec fn lut16_wf(m: Mft2) -> bool {
    let n = m.input_channels as int;
    let mc = m.output_channels as int;
    &&& 1 <= n <= 4
    &&& 1 <= mc
    &&& m.e_params@.len() == 9
    &&& m.input_table@.len() == n * m.input_table_enteries as int
    &&& m.output_table@.len() == mc * m.output_table_enteries as int
    &&& m.clut_values@.len() == pow(m.number_of_clut_grid_points as int, n as nat) * mc
}

/// The tables of a lut8 have the sizes its header declares (256 entries per
/// curve), and it has one to four input channels and at least one output.
pub open spec fn lut8_wf(m: Mft1) -> bool {
    let n = m.input_channels as int;
    let mc = m.output_channels as int;
    &&& 1 <= n <= 4
    &&& 1 <= mc
    &&& m.e_params@.len() == 9
    &&& m.input_table@.len() == n * 256
    &&& m.output_table@.len() == mc * 256
    &&& m.clut_values@.len() == pow(m.number_of_clut_grid_points as int, n as nat) * mc
}

/// Upper bound of `domain^k` for `k <= 4` and a domain up to 65536.
pub open spec fn scale_bound(k: int) -> int {
    if k <= 0 {
        1
    } else if k == 1 {
        0x1_0000
    } else if k == 2 {
        0x1_0000_0000
    } else if k == 3 {
        0x1_0000_0000_0000
    } else {
        0x1_0000_0000_0000_0000
    }
}

pub proof fn lemma_pow_positive(b: int, e: nat)
    requires
        b >= 1,
    ensures
        pow(b, e) >= 1,
    decreases e,
{
    if e > 0 {
        lemma_pow_positive(b, (e - 1) as nat);
        assert(pow(b, (e - 1) as nat) * b >= 1) by (nonlinear_arith)
            requires
                pow(b, (e - 1) as nat) >= 1,
                b >= 1,
        ;
    }
}

/// The two grid corners and the blend weight of a set of samples.
pub struct GridCell {
    pub low: u64,
    pub high: u64,
    pub weight: u128,
    pub scale: u128,
}

/// Locates samples on a grid of `g` points per axis, over the domain `d`.
fn locate(s: &Vec<u32>, g: u8, d: u32) -> (r: GridCell)
    requires
        1 <= s@.len() <= 4,
        g >= 1,
        d == 255 || d == 65536,
        forall|k: int| 0 <= k < s@.len() ==> s@[k] < 65536,
    ensures
        r.low as int == corner(s@, g as int, d as int, false),
        r.high as int == corner(s@, g as int, d as int, true),
        r.weight as int == weight(s@, g as int, d as int),
        r.scale as int == pow(d as int, s@.len()),
        r.low < pow(g as int, s@.len()),
        r.high < pow(g as int, s@.len()),
        r.weight <= r.scale,
        r.scale <= scale_bound(s@.len() as int),
{
    let n = s.len();
    let gg = g as u64;
    let dd = d as u64;
    let mut low: u64 = 0;
    let mut high: u64 = 0;
    let mut w: u128 = 1;
    let mut scale: u128 = 1;
    let mut k: usize = 0;
    while k < n
        invariant
            n == s@.len(),
            1 <= n <= 4,
            gg == g as u64,
            gg >= 1,
            dd == d as u64,
            d == 255 || d == 65536,
            forall|i: int| 0 <= i < s@.len() ==> s@[i] < 65536,
            k <= n,
            low as int == corner(s@.take(k as int), g as int, d as int, false),
            high as int == corner(s@.take(k as int), g as int, d as int, true),
            w as int == weight(s@.take(k as int), g as int, d as int),
            scale as int == pow(d as int, k as nat),
            low < pow(g as int, k as nat),
            high < pow(g as int, k as nat),
            pow(g as int, k as nat) <= scale_bound(k as int),
            w <= scale,
            scale <= scale_bound(k as int),
        decreases n - k,
    {
        let sample = s[k] as u64;
        assert(sample * gg <= 65535 * 255) by (nonlinear_arith)
            requires
                sample < 65536,
                gg <= 255,
        ;
        let prod = sample * gg;
        let mut lo = prod / dd;
        if lo > gg - 1 {
            lo = gg - 1;
        }
        let hi = if lo + 1 < gg {
            lo + 1
        } else {
            gg - 1
        };
        let fr = prod % dd;
        let ghost pg = pow(g as int, k as nat);
        let ghost sb = scale_bound(k as int);
        proof {
            let t = s@.take(k as int + 1);
            assert(t.drop_last() =~= s@.take(k as int));
            assert(t.last() == s@[k as int]);
            assert(pg <= sb);
            assert((low as int) * (gg as int) + (lo as int) < pg * (gg as int)) by (nonlinear_arith)
                requires
                    low < pg,
                    lo < gg,
            ;
            assert((high as int) * (gg as int) + (hi as int) < pg * (gg as int)) by (nonlinear_arith)
                requires
                    high < pg,
                    hi < gg,
            ;
            assert(pg * (gg as int) <= sb * 65536) by (nonlinear_arith)
                requires
                    pg <= sb,
                    gg <= 255,
                    pg >= 0,
            ;
            assert((w as int) * (fr as int) <= (scale as int) * (dd as int)) by (nonlinear_arith)
                requires
                    w <= scale,
                    fr < dd,
                    w >= 0,
            ;
            assert((scale as int) * (dd as int) <= sb * 65536) by (nonlinear_arith)
                requires
                    scale <= sb,
                    dd <= 65536,
                    scale >= 0,
            ;
            assert(sb * 65536 <= scale_bound(k as int + 1));
        }
        low = low * gg + lo;
        high = high * gg + hi;
        w = w * (fr as u128);
        scale = scale * (dd as u128);
        k = k + 1;
    }
    proof {
        assert(s@.take(n as int) =~= s@);
    }
    GridCell { low, high, weight: w, scale }
}

/// Stage A of a lut16 for channel `k` at byte `x`.
fn pre_sample16(m: &Mft2, k: usize, x: u8) -> (r: u32)
    requires
        lut16_wf(*m),
        k < m.input_channels,
        m.input_table_enteries >= 1,
    ensures
        r as int == pre16(*m, k as int, x as int),
        r < 65536,
{
    let n = m.input_table_enteries as u64;
    let v = x as u64 * 257;
    let mut i = v / n;
    if i > n - 1 {
        i = n - 1;
    }
    let i2 = if i + 1 < n {
        i + 1
    } else {
        n - 1
    };
    let delta = 65535 / n;
    let mut w = v % n;
    if w > delta {
        w = delta;
    }
    let ghost nc = m.input_channels as int;
    proof {
        assert((k as int) * (n as int) + (i as int) < nc * (n as int)) by (nonlinear_arith)
            requires
                k < nc,
                i < n,
        ;
        assert((k as int) * (n as int) + (i2 as int) < nc * (n as int)) by (nonlinear_arith)
            requires
                k < nc,
                i2 < n,
        ;
        assert(nc * (n as int) <= 4 * 65535) by (nonlinear_arith)
            requires
                nc <= 4,
                n <= 65535,
        ;
        assert(delta >= 1) by (nonlinear_arith)
            requires
                delta == 65535int / (n as int),
                1 <= n <= 65535,
        ;
    }
    let base = k as u64 * n;
    let t0 = m.input_table[(base + i) as usize] as u64;
    let t1 = m.input_table[(base + i2) as usize] as u64;
    if t1 >= t0 {
        let a = t1 - t0;
        assert(a * w <= 65535 * 65535) by (nonlinear_arith)
            requires
                a <= 65535,
                w <= 65535,
        ;
        assert(((a * w) as int) / (delta as int) <= a) by (nonlinear_arith)
            requires
                w <= delta,
                delta >= 1,
        ;
        (t0 + a * w / delta) as u32
    } else {
        let a = t0 - t1;
        assert(a * w <= 65535 * 65535) by (nonlinear_arith)
            requires
                a <= 65535,
                w <= 65535,
        ;
        assert(((a * w) as int) / (delta as int) <= a) by (nonlinear_arith)
            requires
                w <= delta,
                delta >= 1,
        ;
        (t0 - a * w / delta) as u32
    }
}

/// Stage C of a lut16 for output channel `j` at the blended value `b / scale`.
fn post_value16(m: &Mft2, j: usize, b: u128, scale: u128) -> (r: LutValue)
    requires
        lut16_wf(*m),
        j < m.output_channels,
        m.output_table_enteries >= 1,
        1 <= scale <= 0x1_0000_0000_0000_0000,
        b <= 65535 * scale,
    ensures
        r == post16(*m, j as int, b as int, scale as int),
        small_value(r),
{
    let n = m.output_table_enteries as u128;
    let q = scale * 65535;
    assert(b * (n - 1) <= 65535 * scale * 65535) by (nonlinear_arith)
        requires
            b <= 65535 * scale,
            n <= 65535,
            n >= 1,
    ;
    let x = b * (n - 1);
    let mut o = x / q;
    if o > n - 1 {
        o = n - 1;
    }
    let f = x % q;
    let o2 = if o + 1 < n {
        o + 1
    } else {
        n - 1
    };
    let ghost mc = m.output_channels as int;
    proof {
        assert((j as int) * (n as int) + (o as int) < mc * (n as int)) by (nonlinear_arith)
            requires
                j < mc,
                o < n,
        ;
        assert((j as int) * (n as int) + (o2 as int) < mc * (n as int)) by (nonlinear_arith)
            requires
                j < mc,
                o2 < n,
        ;
        assert(mc * (n as int) <= 255 * 65535) by (nonlinear_arith)
            requires
                mc <= 255,
                n <= 65535,
        ;
    }
    let base = j as u128 * n;
    let u0 = m.output_table[(base + o) as usize] as u128;
    let u1 = m.output_table[(base + o2) as usize] as u128;
    assert(u0 * (q - f) + u1 * f <= 65535 * q) by (nonlinear_arith)
        requires
            u0 <= 65535,
            u1 <= 65535,
            f < q,
    ;
    assert(q <= 0x1_0000_0000_0000_0000_0000_0000) by (nonlinear_arith)
        requires
            q == scale * 65535,
            scale <= 0x1_0000_0000_0000_0000,
    ;
    LutValue { numerator: u0 * (q - f) + u1 * f, denominator: q }
}

/// The blended grid value of output channel `j`, times the cell's scale.
fn blend_exec(low: u128, high: u128, cell: &GridCell) -> (r: u128)
    requires
        low <= 65535,
        high <= 65535,
        cell.weight <= cell.scale,
        cell.scale <= 0x1_0000_0000_0000_0000,
    ensures
        r as int == blend(low as int, high as int, cell.weight as int, cell.scale as int),
        r <= 65535 * cell.scale,
{
    let w = cell.weight;
    let sc = cell.scale;
    assert(low * (sc - w) + high * w <= 65535 * sc) by (nonlinear_arith)
        requires
            low <= 65535,
            high <= 65535,
            w <= sc,
    ;
    low * (sc - w) + high * w
}

/// Index of output channel `j` at grid corner `c` in a table of `mc` channels
/// per grid point.
fn clut_index(c: u64, mc: u8, j: usize, len: usize, Ghost(points): Ghost<int>) -> (r: usize)
    requires
        c < points,
        j < mc,
        len == points * mc,
    ensures
        r as int == c as int * mc as int + j as int,
        r < len,
{
    assert((c as int) * (mc as int) + (j as int) < points * (mc as int)) by (nonlinear_arith)
        requires
            c < points,
            j < mc,
    ;
    (c as u128 * mc as u128 + j as u128) as usize
}

/// Evaluates a lut16 on the input bytes `xs`, one byte per input channel.
/// Fails with `DivideByZero` when the grid or a curve has no entries.
pub fn lut16_eval(m: &Mft2, xs: &[u8]) -> (r: Result<Vec<LutValue>, IccError>)
    requires
        lut16_wf(*m),
        xs@.len() == m.input_channels,
    ensures
        r is Err <==> (m.number_of_clut_grid_points == 0 || m.input_table_enteries == 0
            || m.output_table_enteries == 0),
        r is Err ==> r->Err_0 == IccError::DivideByZero,
        r is Ok ==> r->Ok_0@ == lut16_values(*m, xs@),
        r is Ok ==> forall|i: int| 0 <= i < r->Ok_0@.len() ==> small_value(#[trigger] r->Ok_0@[i]),
{
    if m.number_of_clut_grid_points == 0 || m.input_table_enteries == 0
        || m.output_table_enteries == 0 {
        return Err(IccError::DivideByZero);
    }
    let nch = m.input_channels as usize;
    let mut samples: Vec<u32> = Vec::new();
    let mut k: usize = 0;
    while k < nch
        invariant
            lut16_wf(*m),
            nch == m.input_channels,
            xs@.len() == nch,
            m.input_table_enteries >= 1,
            k <= nch,
            samples@.len() == k,
            forall|i: int| 0 <= i < k ==> samples@[i] == pre16_all(*m, xs@)[i],
            forall|i: int| 0 <= i < k ==> samples@[i] < 65536,
        decreases nch - k,
    {
        let v = pre_sample16(m, k, xs[k]);
        samples.push(v);
        k = k + 1;
    }
    assert(samples@ =~= pre16_all(*m, xs@));
    let g = m.number_of_clut_grid_points;
    let cell = locate(&samples, g, 65536);
    proof {
        lemma_pow_positive(65536, nch as nat);
    }
    let ghost points = pow(g as int, nch as nat);
    let mc = m.output_channels;
    let len = m.clut_values.len();
    let mut out: Vec<LutValue> = Vec::new();
    let mut j: usize = 0;
    while j < mc as usize
        invariant
            lut16_wf(*m),
            mc == m.output_channels,
            xs@.len() == nch,
            nch == m.input_channels,
            samples@ == pre16_all(*m, xs@),
            m.output_table_enteries >= 1,
            g == m.number_of_clut_grid_points,
            points == pow(g as int, nch as nat),
            len == m.clut_values@.len(),
            len == points * mc,
            cell.low as int == corner(samples@, g as int, 65536, false),
            cell.high as int == corner(samples@, g as int, 65536, true),
            cell.weight as int == weight(samples@, g as int, 65536),
            cell.scale as int == pow(65536, nch as nat),
            cell.low < points,
            cell.high < points,
            cell.weight <= cell.scale,
            1 <= cell.scale <= 0x1_0000_0000_0000_0000,
            j <= mc,
            out@.len() == j,
            forall|i: int| 0 <= i < j ==> out@[i] == lut16_value(*m, xs@, i),
            forall|i: int| 0 <= i < j ==> small_value(#[trigger] out@[i]),
        decreases mc - j,
    {
        let il = clut_index(cell.low, mc, j, len, Ghost(points));
        let ih = clut_index(cell.high, mc, j, len, Ghost(points));
        let b = blend_exec(m.clut_values[il] as u128, m.clut_values[ih] as u128, &cell);
        let v = post_value16(m, j, b, cell.scale);
        out.push(v);
        j = j + 1;
    }
    assert(out@ =~= lut16_values(*m, xs@));
    Ok(out)
}

/// Evaluates a lut8 on the input bytes `xs`, one byte per input channel.
/// Fails with `DivideByZero` when the grid has no points.
pub fn lut8_eval(m: &Mft1, xs: &[u8]) -> (r: Result<Vec<u8>, IccError>)
    requires
        lut8_wf(*m),
        xs@.len() == m.input_channels,
    ensures
        r is Err <==> m.number_of_clut_grid_points == 0,
        r is Err ==> r->Err_0 == IccError::DivideByZero,
        r is Ok ==> r->Ok_0@ == lut8_values(*m, xs@),
{
    if m.number_of_clut_grid_points == 0 {
        return Err(IccError::DivideByZero);
    }
    let nch = m.input_channels as usize;
    let mut samples: Vec<u32> = Vec::new();
    let mut k: usize = 0;
    while k < nch
        invariant
            lut8_wf(*m),
            nch == m.input_channels,
            xs@.len() == nch,
            k <= nch,
            samples@.len() == k,
            forall|i: int| 0 <= i < k ==> samples@[i] == pre8_all(*m, xs@)[i],
            forall|i: int| 0 <= i < k ==> samples@[i] < 65536,
        decreases nch - k,
    {
        let x = xs[k] as usize;
        let v = m.input_table[k * 256 + x] as u32;
        samples.push(v);
        k = k + 1;
    }
    assert(samples@ =~= pre8_all(*m, xs@));
    let g = m.number_of_clut_grid_points;
    let cell = locate(&samples, g, 255);
    proof {
        lemma_pow_positive(255, nch as nat);
    }
    let ghost points = pow(g as int, nch as nat);
    let mc = m.output_channels;
    let len = m.clut_values.len();
    let mut out: Vec<u8> = Vec::new();
    let mut j: usize = 0;
    while j < mc as usize
        invariant
            lut8_wf(*m),
            mc == m.output_channels,
            xs@.len() == nch,
            nch == m.input_channels,
            samples@ == pre8_all(*m, xs@),
            g == m.number_of_clut_grid_points,
            points == pow(g as int, nch as nat),
            len == m.clut_values@.len(),
            len == points * mc,
            cell.low as int == corner(samples@, g as int, 255, false),
            cell.high as int == corner(samples@, g as int, 255, true),
            cell.weight as int == weight(samples@, g as int, 255),
            cell.scale as int == pow(255, nch as nat),
            cell.low < points,
            cell.high < points,
            cell.weight <= cell.scale,
            1 <= cell.scale <= 0x1_0000_0000_0000_0000,
            j <= mc,
            out@.len() == j,
            forall|i: int| 0 <= i < j ==> out@[i] == lut8_value(*m, xs@, i),
        decreases mc - j,
    {
        let il = clut_index(cell.low, mc, j, len, Ghost(points));
        let ih = clut_index(cell.high, mc, j, len, Ghost(points));
        let b = blend_exec(m.clut_values[il] as u128, m.clut_values[ih] as u128, &cell);
        let mut d = b / cell.scale;
        if d > 255 {
            d = 255;
        }
        let v = m.output_table[j * 256 + d as usize];
        out.push(v);
        j = j + 1;
    }
    assert(out@ =~= lut8_values(*m, xs@));
    Ok(out)
}

/// Channel `r` of three input bytes after the 3x3 matrix of a lut's header:
/// the exact sum of products, truncated and clamped to a byte.
pub open spec fn adapt(e: Seq<S15Fixed16Number>, xs: Seq<u8>, r: int) -> u8 {
    let num = e[3 * r].scaled() * xs[0] as int + e[3 * r + 1].scaled() * xs[1] as int + e[3 * r
        + 2].scaled() * xs[2] as int;
    if num < 0 {
        0
    } else {
        min(num / 65535, 255) as u8
    }
}

/// The three input bytes after the matrix.
pub open spec fn adapt_all(e: Seq<S15Fixed16Number>, xs: Seq<u8>) -> Seq<u8> {
    seq![adapt(e, xs, 0), adapt(e, xs, 1), adapt(e, xs, 2)]
}

fn scaled_exec(e: S15Fixed16Number) -> (r: i64)
    ensures
        r == e.scaled(),
        -32768 * 65535 <= r <= 32767 * 65535 + 65535,
{
    e.integer as i64 * 65535 + e.decimal as i64
}

/// Applies the 3x3 matrix of a lut's header to three input bytes.
pub fn adapt_channels(e: &Vec<S15Fixed16Number>, c1: u8, c2: u8, c3: u8) -> (r: Vec<u8>)
    requires
        e@.len() == 9,
    ensures
        r@ == adapt_all(e@, seq![c1, c2, c3]),
{
    let ghost xs = seq![c1, c2, c3];
    let mut out: Vec<u8> = Vec::new();
    let mut row: usize = 0;
    while row < 3
        invariant
            e@.len() == 9,
            xs == seq![c1, c2, c3],
            row <= 3,
            out@.len() == row,
            forall|i: int| 0 <= i < row ==> out@[i] == adapt(e@, xs, i),
        decreases 3 - row,
    {
        let a = scaled_exec(e[3 * row]);
        let b = scaled_exec(e[3 * row + 1]);
        let c = scaled_exec(e[3 * row + 2]);
        let x1 = c1 as i64;
        let x2 = c2 as i64;
        let x3 = c3 as i64;
        assert(-32768 * 65535 * 255 <= a * x1 <= (32767 * 65535 + 65535) * 255) by (nonlinear_arith)
            requires
                -32768 * 65535 <= a <= 32767 * 65535 + 65535,
                0 <= x1 <= 255,
        ;
        assert(-32768 * 65535 * 255 <= b * x2 <= (32767 * 65535 + 65535) * 255) by (nonlinear_arith)
            requires
                -32768 * 65535 <= b <= 32767 * 65535 + 65535,
                0 <= x2 <= 255,
        ;
        assert(-32768 * 65535 * 255 <= c * x3 <= (32767 * 65535 + 65535) * 255) by (nonlinear_arith)
            requires
                -32768 * 65535 <= c <= 32767 * 65535 + 65535,
                0 <= x3 <= 255,
        ;
        let num = a * x1 + b * x2 + c * x3;
        let v: u8 = if num < 0 {
            0
        } else if num / 65535 > 255 {
            255
        } else {
            (num / 65535) as u8
        };
        out.push(v);
        row = row + 1;
    }
    assert(out@ =~= adapt_all(e@, xs));
    out
}

/// The samples all lie on grid points: no axis has a fractional part.
pub open spec fn on_grid(s: Seq<u32>, g: int, d: int) -> bool {
    forall|k: int| 0 <= k < s.len() ==> #[trigger] grid_frac(s[k] as int, g, d) == 0
}

proof fn lemma_weight_on_grid(s: Seq<u32>, g: int, d: int)
    requires
        s.len() >= 1,
        on_grid(s, g, d),
    ensures
        weight(s, g, d) == 0,
    decreases s.len(),
{
    assert(grid_frac(s[s.len() - 1] as int, g, d) == 0);
    assert(weight(s, g, d) == weight(s.drop_last(), g, d) * 0);
}

/// When every input lands exactly on a grid point, the blend of a lut16 is the
/// lower grid corner's value itself, with nothing added by interpolation.
pub proof fn lemma_lut16_grid_point_exact(m: Mft2, xs: Seq<u8>, j: int)
    requires
        xs.len() >= 1,
        on_grid(pre16_all(m, xs), m.number_of_clut_grid_points as int, 65536),
    ensures
        grid_value16(m, xs, j) == m.clut_values@[corner(
            pre16_all(m, xs),
            m.number_of_clut_grid_points as int,
            65536,
            false,
        ) * m.output_channels as int + j] as int * pow(65536, xs.len()),
{
    let s = pre16_all(m, xs);
    lemma_weight_on_grid(s, m.number_of_clut_grid_points as int, 65536);
    let g = m.number_of_clut_grid_points as int;
    let mc = m.output_channels as int;
    let low = m.clut_values@[corner(s, g, 65536, false) * mc + j] as int;
    let high = m.clut_values@[corner(s, g, 65536, true) * mc + j] as int;
    let sc = pow(65536, xs.len());
    assert(blend(low, high, 0, sc) == low * sc) by (nonlinear_arith);
}

/// When every input lands exactly on a grid point, the blend of a lut8 is the
/// lower grid corner's value itself, with nothing added by interpolation.
pub proof fn lemma_lut8_grid_point_exact(m: Mft1, xs: Seq<u8>, j: int)
    requires
        xs.len() >= 1,
        on_grid(pre8_all(m, xs), m.number_of_clut_grid_points as int, 255),
    ensures
        grid_value8(m, xs, j) == m.clut_values@[corner(
            pre8_all(m, xs),
            m.number_of_clut_grid_points as int,
            255,
            false,
        ) * m.output_channels as int + j] as int * pow(255, xs.len()),
{
    let s = pre8_all(m, xs);
    lemma_weight_on_grid(s, m.number_of_clut_grid_points as int, 255);
    let g = m.number_of_clut_grid_points as int;
    let mc = m.output_channels as int;
    let low = m.clut_values@[corner(s, g, 255, false) * mc + j] as int;
    let high = m.clut_values@[corner(s, g, 255, true) * mc + j] as int;
    let sc = pow(255, xs.len());
    assert(blend(low, high, 0, sc) == low * sc) by (nonlinear_arith);
}

/// The largest input byte, 255, picks the last entry of an input curve of up
/// to 256 entries; every grid index stays within `0 ..= g - 1`; and the
/// largest 8-bit sample clamps to the last grid point.
pub proof fn lemma_top_input_clamps(n: int, g: int, d: int, s: int)
    requires
        1 <= n <= 256,
        g >= 1,
        d == 255 || d == 65536,
        0 <= s,
    ensures
        pre16_index(n, 255) == n - 1,
        0 <= grid_low(s, g, d) <= g - 1,
        0 <= grid_high(s, g, d) <= g - 1,
        grid_low(255, g, 255) == g - 1,
{
    assert(65535int / n >= n - 1) by (nonlinear_arith)
        requires
            1 <= n <= 256,
    ;
    assert(s * g / d >= 0) by (nonlinear_arith)
        requires
            s >= 0,
            g >= 1,
            d >= 1,
    ;
    assert(255 * g / 255int == g) by (nonlinear_arith);
}

/// `255^k` for `k <= 4`.
pub open spec fn byte_pow_bound(k: int) -> int {
    if k <= 0 {
        1
    } else if k == 1 {
        255
    } else if k == 2 {
        65025
    } else if k == 3 {
        16581375
    } else {
        4228250625
    }
}

/// `g^n * mc` for at most four axes.
fn grid_entries(g: u8, n: u8, mc: u8) -> (r: u64)
    requires
        n <= 4,
    ensures
        r == pow(g as int, n as nat) * mc as int,
{
    let mut c: u64 = 1;
    let mut i: u8 = 0;
    while i < n
        invariant
            i <= n <= 4,
            c == pow(g as int, i as nat),
            c <= byte_pow_bound(i as int),
        decreases n - i,
    {
        assert(c * (g as u64) <= byte_pow_bound(i as int) * 255) by (nonlinear_arith)
            requires
                c <= byte_pow_bound(i as int),
                g <= 255,
        ;
        c = c * g as u64;
        i = i + 1;
    }
    assert(c * (mc as u64) <= 0x1_0000_0000 * 255) by (nonlinear_arith)
        requires
            c <= 0x1_0000_0000,
            mc <= 255,
    ;
    c * mc as u64
}

/// Whether a lut16's tables have the sizes its header declares (and it has
/// one to four inputs and at least one output): what evaluation requires.
pub fn lut16_is_wf(m: &Mft2) -> (r: bool)
    ensures
        r == lut16_wf(*m),
{
    let n = m.input_channels;
    let mc = m.output_channels;
    if n < 1 || n > 4 || mc < 1 || m.e_params.len() != 9 {
        return false;
    }
    assert(n as u64 * m.input_table_enteries as u64 <= 255 * 65535) by (nonlinear_arith);
    assert(mc as u64 * m.output_table_enteries as u64 <= 255 * 65535) by (nonlinear_arith);
    m.input_table.len() as u64 == n as u64 * m.input_table_enteries as u64
        && m.output_table.len() as u64 == mc as u64 * m.output_table_enteries as u64
        && m.clut_values.len() as u64 == grid_entries(m.number_of_clut_grid_points, n, mc)
}

/// Whether a lut8's tables have the sizes its header declares (and it has one
/// to four inputs and at least one output): what evaluation requires.
pub fn lut8_is_wf(m: &Mft1) -> (r: bool)
    ensures
        r == lut8_wf(*m),
{
    let n = m.input_channels;
    let mc = m.output_channels;
    if n < 1 || n > 4 || mc < 1 || m.e_params.len() != 9 {
        return false;
    }
    m.input_table.len() as u64 == n as u64 * 256 && m.output_table.len() as u64 == mc as u64 * 256
        && m.clut_values.len() as u64 == grid_entries(m.number_of_clut_grid_points, n, mc)
}

} // verus!
