//! Colour conversions through a profile's lookup tables, one sample or a
//! packed buffer of samples at a time.
use vstd::prelude::*;

use crate::error::IccError;
use crate::lut::{
    adapt_all, adapt_channels, lut16_eval, lut16_value, lut16_wf, lut8_eval, lut8_value, lut8_wf,
    min, small_value, LutValue,
};
use crate::lut::{lut16_is_wf, lut8_is_wf};
use crate::profile::DecodedICCProfile;
use crate::tags::{Data, Mft1, Mft2};

verus! {

/// Four channels (CMYK) to three through a lut16.
pub fn d4_to_d3_lut16(c1: u8, c2: u8, c3: u8, c4: u8, lut: &Mft2) -> (r: Result<
    (LutValue, LutValue, LutValue),
    IccError,
>)
    requires
        lut16_wf(*lut),
        lut.input_channels == 4,
        lut.output_channels >= 3,
    ensures
        r is Err <==> (lut.number_of_clut_grid_points == 0 || lut.input_table_enteries == 0
            || lut.output_table_enteries == 0),
        r is Err ==> r->Err_0 == IccError::DivideByZero,
        r is Ok ==> r->Ok_0 == (
            lut16_value(*lut, seq![c1, c2, c3, c4], 0),
            lut16_value(*lut, seq![c1, c2, c3, c4], 1),
            lut16_value(*lut, seq![c1, c2, c3, c4], 2),
        ),
{
    let xs = vec![c1, c2, c3, c4];
    assert(xs@ =~= seq![c1, c2, c3, c4]);
    match lut16_eval(lut, xs.as_slice()) {
        Err(e) => Err(e),
        Ok(v) => Ok((v[0], v[1], v[2])),
    }
}

/// Four channels (CMYK) to three through a lut8.
pub fn d4_to_d3_lut8(c: u8, m: u8, y: u8, k: u8, lut: &Mft1) -> (r: Result<(u8, u8, u8), IccError>)
    requires
        lut8_wf(*lut),
        lut.input_channels == 4,
        lut.output_channels >= 3,
    ensures
        r is Err <==> lut.number_of_clut_grid_points == 0,
        r is Err ==> r->Err_0 == IccError::DivideByZero,
        r is Ok ==> r->Ok_0 == (
            lut8_value(*lut, seq![c, m, y, k], 0),
            lut8_value(*lut, seq![c, m, y, k], 1),
            lut8_value(*lut, seq![c, m, y, k], 2),
        ),
{
    let xs = vec![c, m, y, k];
    assert(xs@ =~= seq![c, m, y, k]);
    match lut8_eval(lut, xs.as_slice()) {
        Err(e) => Err(e),
        Ok(v) => Ok((v[0], v[1], v[2])),
    }
}

/// Three channels to four through a lut16, after the header's matrix.
pub fn d3_to_d4_lut16(c1: u8, c2: u8, c3: u8, lut: &Mft2) -> (r: Result<
    (LutValue, LutValue, LutValue, LutValue),
    IccError,
>)
    requires
        lut16_wf(*lut),
        lut.input_channels == 3,
        lut.output_channels >= 4,
    ensures
        r is Err <==> (lut.number_of_clut_grid_points == 0 || lut.input_table_enteries == 0
            || lut.output_table_enteries == 0),
        r is Err ==> r->Err_0 == IccError::DivideByZero,
        r is Ok ==> r->Ok_0 == (
            lut16_value(*lut, adapt_all(lut.e_params@, seq![c1, c2, c3]), 0),
            lut16_value(*lut, adapt_all(lut.e_params@, seq![c1, c2, c3]), 1),
            lut16_value(*lut, adapt_all(lut.e_params@, seq![c1, c2, c3]), 2),
            lut16_value(*lut, adapt_all(lut.e_params@, seq![c1, c2, c3]), 3),
        ),
{
    let xs = adapt_channels(&lut.e_params, c1, c2, c3);
    match lut16_eval(lut, xs.as_slice()) {
        Err(e) => Err(e),
        Ok(v) => Ok((v[0], v[1], v[2], v[3])),
    }
}

/// Three channels to three through a lut16, after the header's matrix.
pub fn d3_to_d3_lut16(c1: u8, c2: u8, c3: u8, lut: &Mft2) -> (r: Result<
    (LutValue, LutValue, LutValue),
    IccError,
>)
    requires
        lut16_wf(*lut),
        lut.input_channels == 3,
        lut.output_channels >= 3,
    ensures
        r is Err <==> (lut.number_of_clut_grid_points == 0 || lut.input_table_enteries == 0
            || lut.output_table_enteries == 0),
        r is Err ==> r->Err_0 == IccError::DivideByZero,
        r is Ok ==> r->Ok_0 == (
            lut16_value(*lut, adapt_all(lut.e_params@, seq![c1, c2, c3]), 0),
            lut16_value(*lut, adapt_all(lut.e_params@, seq![c1, c2, c3]), 1),
            lut16_value(*lut, adapt_all(lut.e_params@, seq![c1, c2, c3]), 2),
        ),
{
    let xs = adapt_channels(&lut.e_params, c1, c2, c3);
    match lut16_eval(lut, xs.as_slice()) {
        Err(e) => Err(e),
        Ok(v) => Ok((v[0], v[1], v[2])),
    }
}

/// Three channels to one through a lut16, after the header's matrix.
pub fn d3_to_d1_lut16(c1: u8, c2: u8, c3: u8, lut: &Mft2) -> (r: Result<LutValue, IccError>)
    requires
        lut16_wf(*lut),
        lut.input_channels == 3,
    ensures
        r is Err <==> (lut.number_of_clut_grid_points == 0 || lut.input_table_enteries == 0
            || lut.output_table_enteries == 0),
        r is Err ==> r->Err_0 == IccError::DivideByZero,
        r is Ok ==> r->Ok_0 == lut16_value(*lut, adapt_all(lut.e_params@, seq![c1, c2, c3]), 0),
{
    let xs = adapt_channels(&lut.e_params, c1, c2, c3);
    match lut16_eval(lut, xs.as_slice()) {
        Err(e) => Err(e),
        Ok(v) => Ok(v[0]),
    }
}

/// Three channels to four through a lut8, after the header's matrix.
pub fn d3_to_d4_lut8(c1: u8, c2: u8, c3: u8, lut: &Mft1) -> (r: Result<(u8, u8, u8, u8), IccError>)
    requires
        lut8_wf(*lut),
        lut.input_channels == 3,
        lut.output_channels >= 4,
    ensures
        r is Err <==> lut.number_of_clut_grid_points == 0,
        r is Err ==> r->Err_0 == IccError::DivideByZero,
        r is Ok ==> r->Ok_0 == (
            lut8_value(*lut, adapt_all(lut.e_params@, seq![c1, c2, c3]), 0),
            lut8_value(*lut, adapt_all(lut.e_params@, seq![c1, c2, c3]), 1),
            lut8_value(*lut, adapt_all(lut.e_params@, seq![c1, c2, c3]), 2),
            lut8_value(*lut, adapt_all(lut.e_params@, seq![c1, c2, c3]), 3),
        ),
{
    let xs = adapt_channels(&lut.e_params, c1, c2, c3);
    match lut8_eval(lut, xs.as_slice()) {
        Err(e) => Err(e),
        Ok(v) => Ok((v[0], v[1], v[2], v[3])),
    }
}

/// Three channels to three through a lut8, after the header's matrix.
pub fn d3_to_d3_lut8(c1: u8, c2: u8, c3: u8, lut: &Mft1) -> (r: Result<(u8, u8, u8), IccError>)
    requires
        lut8_wf(*lut),
        lut.input_channels == 3,
        lut.output_channels >= 3,
    ensures
        r is Err <==> lut.number_of_clut_grid_points == 0,
        r is Err ==> r->Err_0 == IccError::DivideByZero,
        r is Ok ==> r->Ok_0 == (
            lut8_value(*lut, adapt_all(lut.e_params@, seq![c1, c2, c3]), 0),
            lut8_value(*lut, adapt_all(lut.e_params@, seq![c1, c2, c3]), 1),
            lut8_value(*lut, adapt_all(lut.e_params@, seq![c1, c2, c3]), 2),
        ),
{
    let xs = adapt_channels(&lut.e_params, c1, c2, c3);
    match lut8_eval(lut, xs.as_slice()) {
        Err(e) => Err(e),
        Ok(v) => Ok((v[0], v[1], v[2])),
    }
}

/// Three channels to one through a lut8, after the header's matrix.
pub fn d3_to_d1_lut8(c1: u8, c2: u8, c3: u8, lut: &Mft1) -> (r: Result<u8, IccError>)
    requires
        lut8_wf(*lut),
        lut.input_channels == 3,
    ensures
        r is Err <==> lut.number_of_clut_grid_points == 0,
        r is Err ==> r->Err_0 == IccError::DivideByZero,
        r is Ok ==> r->Ok_0 == lut8_value(*lut, adapt_all(lut.e_params@, seq![c1, c2, c3]), 0),
{
    let xs = adapt_channels(&lut.e_params, c1, c2, c3);
    match lut8_eval(lut, xs.as_slice()) {
        Err(e) => Err(e),
        Ok(v) => Ok(v[0]),
    }
}

/// Four packed bytes per entry to three lut16 values per entry. Fails with
/// `DataShortage`, before any conversion, when `buf` holds fewer than
/// `entries * 4` bytes.
pub fn d4_to_d3_entries_lut16(buf: &[u8], entries: usize, lut: &Mft2) -> (r: Result<
    Vec<LutValue>,
    IccError,
>)
    requires
        lut16_wf(*lut),
        lut.input_channels == 4,
        lut.output_channels >= 3,
    ensures
        buf@.len() < entries * 4 ==> r == Err::<Vec<LutValue>, IccError>(
            IccError::DataShortage { entries, width: 4, length: buf@.len() as usize },
        ),
        buf@.len() >= entries * 4 ==> (r is Err <==> (entries > 0 && (
        lut.number_of_clut_grid_points == 0 || lut.input_table_enteries == 0
            || lut.output_table_enteries == 0))),
        buf@.len() >= entries * 4 && r is Err ==> r->Err_0 == IccError::DivideByZero,
        r is Ok ==> r->Ok_0@.len() == entries * 3,
        r is Ok ==> forall|i: int, j: int|
            0 <= i < entries && 0 <= j < 3 ==> #[trigger] r->Ok_0@[i * 3 + j] == lut16_value(
                *lut,
                buf@.subrange(i * 4, i * 4 + 4),
                j,
            ),
{
    if buf.len() / 4 < entries {
        return Err(IccError::DataShortage { entries, width: 4, length: buf.len() });
    }
    if entries > 0 && (lut.number_of_clut_grid_points == 0 || lut.input_table_enteries == 0
        || lut.output_table_enteries == 0) {
        return Err(IccError::DivideByZero);
    }
    let mut out: Vec<LutValue> = Vec::new();
    let mut i: usize = 0;
    while i < entries
        invariant
            lut16_wf(*lut),
            lut.input_channels == 4,
            lut.output_channels >= 3,
            entries * 4 <= buf@.len() <= usize::MAX,
            entries > 0 ==> lut.number_of_clut_grid_points != 0 && lut.input_table_enteries != 0
                && lut.output_table_enteries != 0,
            i <= entries,
            out@.len() == i * 3,
            forall|a: int, j: int|
                0 <= a < i && 0 <= j < 3 ==> #[trigger] out@[a * 3 + j] == lut16_value(
                    *lut,
                    buf@.subrange(a * 4, a * 4 + 4),
                    j,
                ),
        decreases entries - i,
    {
        let p = i * 4;
        let xs = vec![buf[p], buf[p + 1], buf[p + 2], buf[p + 3]];
        assert(xs@ =~= buf@.subrange(i * 4, i * 4 + 4));
        let v = match lut16_eval(lut, xs.as_slice()) {
            Ok(v) => v,
            Err(_) => {
                return Err(IccError::DivideByZero);
            },
        };
        out.push(v[0]);
        out.push(v[1]);
        out.push(v[2]);
        proof {
            assert forall|a: int, j: int| 0 <= a < i + 1 && 0 <= j < 3 implies #[trigger] out@[a
                * 3 + j] == lut16_value(*lut, buf@.subrange(a * 4, a * 4 + 4), j) by {
                if a == i {
                    assert(out@[a * 3 + j] == v@[j]);
                } else {
                    assert(a * 3 + j < i * 3) by (nonlinear_arith)
                        requires
                            a < i,
                            j < 3,
                    ;
                }
            }
        }
        i = i + 1;
    }
    Ok(out)
}

/// Four packed bytes per entry to three lut8 outputs per entry. Fails with
/// `DataShortage`, before any conversion, when `buf` holds fewer than
/// `entries * 4` bytes.
pub fn d4_to_d3_entries_lut8(buf: &[u8], entries: usize, lut: &Mft1) -> (r: Result<
    Vec<u8>,
    IccError,
>)
    requires
        lut8_wf(*lut),
        lut.input_channels == 4,
        lut.output_channels >= 3,
    ensures
        buf@.len() < entries * 4 ==> r == Err::<Vec<u8>, IccError>(
            IccError::DataShortage { entries, width: 4, length: buf@.len() as usize },
        ),
        buf@.len() >= entries * 4 ==> (r is Err <==> (entries > 0
            && lut.number_of_clut_grid_points == 0)),
        buf@.len() >= entries * 4 && r is Err ==> r->Err_0 == IccError::DivideByZero,
        r is Ok ==> r->Ok_0@.len() == entries * 3,
        r is Ok ==> forall|i: int, j: int|
            0 <= i < entries && 0 <= j < 3 ==> #[trigger] r->Ok_0@[i * 3 + j] == lut8_value(
                *lut,
                buf@.subrange(i * 4, i * 4 + 4),
                j,
            ),
{
    if buf.len() / 4 < entries {
        return Err(IccError::DataShortage { entries, width: 4, length: buf.len() });
    }
    if entries > 0 && lut.number_of_clut_grid_points == 0 {
        return Err(IccError::DivideByZero);
    }
    let mut out: Vec<u8> = Vec::new();
    let mut i: usize = 0;
    while i < entries
        invariant
            lut8_wf(*lut),
            lut.input_channels == 4,
            lut.output_channels >= 3,
            entries * 4 <= buf@.len() <= usize::MAX,
            entries > 0 ==> lut.number_of_clut_grid_points != 0,
            i <= entries,
            out@.len() == i * 3,
            forall|a: int, j: int|
                0 <= a < i && 0 <= j < 3 ==> #[trigger] out@[a * 3 + j] == lut8_value(
                    *lut,
                    buf@.subrange(a * 4, a * 4 + 4),
                    j,
                ),
        decreases entries - i,
    {
        let p = i * 4;
        let xs = vec![buf[p], buf[p + 1], buf[p + 2], buf[p + 3]];
        assert(xs@ =~= buf@.subrange(i * 4, i * 4 + 4));
        let v = match lut8_eval(lut, xs.as_slice()) {
            Ok(v) => v,
            Err(_) => {
                return Err(IccError::DivideByZero);
            },
        };
        out.push(v[0]);
        out.push(v[1]);
        out.push(v[2]);
        proof {
            assert forall|a: int, j: int| 0 <= a < i + 1 && 0 <= j < 3 implies #[trigger] out@[a
                * 3 + j] == lut8_value(*lut, buf@.subrange(a * 4, a * 4 + 4), j) by {
                if a == i {
                    assert(out@[a * 3 + j] == v@[j]);
                } else {
                    assert(a * 3 + j < i * 3) by (nonlinear_arith)
                        requires
                            a < i,
                            j < 3,
                    ;
                }
            }
        }
        i = i + 1;
    }
    Ok(out)
}

/// A lut16 value (0 ..= 65535) scaled to a byte and rounded to nearest.
pub open spec fn byte_rounded(v: LutValue) -> u8 {
    let q = 2 * v.denominator as int * 65535;
    min((2 * v.numerator as int * 255 + v.denominator as int * 65535) / q, 255) as u8
}

/// A lut16 value (0 ..= 65535) scaled to a byte and rounded down.
pub open spec fn byte_floor(v: LutValue) -> u8 {
    min((v.numerator as int * 255) / (v.denominator as int * 65535), 255) as u8
}

fn to_byte(v: LutValue, round: bool) -> (r: u8)
    requires
        small_value(v),
    ensures
        round ==> r == byte_rounded(v),
        !round ==> r == byte_floor(v),
{
    let n = v.numerator;
    let d = v.denominator;
    assert(n * 510 + d * 65535 <= 65535 * 0x1_0000_0000_0000_0000_0000_0000 * 511) by (
    nonlinear_arith)
        requires
            d <= 0x1_0000_0000_0000_0000_0000_0000,
            n <= 65535 * d,
    ;
    let x = if round {
        (n * 510 + d * 65535) / (2 * d * 65535)
    } else {
        (n * 255) / (d * 65535)
    };
    if x > 255 {
        255
    } else {
        x as u8
    }
}

/// CMYK to an 8-bit L*a*b* triple through a lut16: L scaled to 0 ..= 255 and
/// rounded down, a* and b* scaled and rounded to nearest.
pub fn cmyk_to_lab_lut16_u8(c: u8, m: u8, y: u8, k: u8, lut: &Mft2) -> (r: Result<
    (u8, u8, u8),
    IccError,
>)
    requires
        lut16_wf(*lut),
        lut.input_channels == 4,
        lut.output_channels >= 3,
    ensures
        r is Err <==> (lut.number_of_clut_grid_points == 0 || lut.input_table_enteries == 0
            || lut.output_table_enteries == 0),
        r is Err ==> r->Err_0 == IccError::DivideByZero,
        r is Ok ==> r->Ok_0 == (
            byte_floor(lut16_value(*lut, seq![c, m, y, k], 0)),
            byte_rounded(lut16_value(*lut, seq![c, m, y, k], 1)),
            byte_rounded(lut16_value(*lut, seq![c, m, y, k], 2)),
        ),
{
    let xs = vec![c, m, y, k];
    assert(xs@ =~= seq![c, m, y, k]);
    match lut16_eval(lut, xs.as_slice()) {
        Err(e) => Err(e),
        Ok(v) => {
            Ok((to_byte(v[0], false), to_byte(v[1], true), to_byte(v[2], true)))
        },
    }
}

/// CMYK to three bytes through a lut8: the table's own outputs.
pub fn cmyk_to_lab_lut8_u8(c: u8, m: u8, y: u8, k: u8, lut: &Mft1) -> (r: Result<
    (u8, u8, u8),
    IccError,
>)
    requires
        lut8_wf(*lut),
        lut.input_channels == 4,
        lut.output_channels >= 3,
    ensures
        r is Err <==> lut.number_of_clut_grid_points == 0,
        r is Err ==> r->Err_0 == IccError::DivideByZero,
        r is Ok ==> r->Ok_0 == (
            lut8_value(*lut, seq![c, m, y, k], 0),
            lut8_value(*lut, seq![c, m, y, k], 1),
            lut8_value(*lut, seq![c, m, y, k], 2),
        ),
{
    d4_to_d3_lut8(c, m, y, k, lut)
}

/// An 8-bit L*a*b* triple to CMYK bytes through a lut16, each output scaled
/// to 0 ..= 255 and rounded to nearest.
pub fn lab_to_cmyk_lut16_u8(l: u8, a: u8, b: u8, lut: &Mft2) -> (r: Result<
    (u8, u8, u8, u8),
    IccError,
>)
    requires
        lut16_wf(*lut),
        lut.input_channels == 3,
        lut.output_channels >= 4,
    ensures
        r is Err <==> (lut.number_of_clut_grid_points == 0 || lut.input_table_enteries == 0
            || lut.output_table_enteries == 0),
        r is Err ==> r->Err_0 == IccError::DivideByZero,
        r is Ok ==> r->Ok_0 == (
            byte_rounded(lut16_value(*lut, adapt_all(lut.e_params@, seq![l, a, b]), 0)),
            byte_rounded(lut16_value(*lut, adapt_all(lut.e_params@, seq![l, a, b]), 1)),
            byte_rounded(lut16_value(*lut, adapt_all(lut.e_params@, seq![l, a, b]), 2)),
            byte_rounded(lut16_value(*lut, adapt_all(lut.e_params@, seq![l, a, b]), 3)),
        ),
{
    let xs = adapt_channels(&lut.e_params, l, a, b);
    match lut16_eval(lut, xs.as_slice()) {
        Err(e) => Err(e),
        Ok(v) => {
            Ok((to_byte(v[0], true), to_byte(v[1], true), to_byte(v[2], true), to_byte(v[3], true)))
        },
    }
}

/// An 8-bit L*a*b* triple to CMYK bytes through a lut8.
pub fn lab_to_cmyk_lut8_u8(l: u8, a: u8, b: u8, lut: &Mft1) -> (r: Result<
    (u8, u8, u8, u8),
    IccError,
>)
    requires
        lut8_wf(*lut),
        lut.input_channels == 3,
        lut.output_channels >= 4,
    ensures
        r is Err <==> lut.number_of_clut_grid_points == 0,
        r is Err ==> r->Err_0 == IccError::DivideByZero,
        r is Ok ==> r->Ok_0 == (
            lut8_value(*lut, adapt_all(lut.e_params@, seq![l, a, b]), 0),
            lut8_value(*lut, adapt_all(lut.e_params@, seq![l, a, b]), 1),
            lut8_value(*lut, adapt_all(lut.e_params@, seq![l, a, b]), 2),
            lut8_value(*lut, adapt_all(lut.e_params@, seq![l, a, b]), 3),
        ),
{
    d3_to_d4_lut8(l, a, b, lut)
}

/// Three packed bytes per entry (L*a*b*) to four CMYK bytes per entry through
/// a lut8. Fails with `DataShortage`, before any conversion, when `buf` holds
/// fewer than `entries * 3` bytes.
pub fn lab_to_cmyk_entries_lut8_u8(buf: &[u8], entries: usize, lut: &Mft1) -> (r: Result<
    Vec<u8>,
    IccError,
>)
    requires
        lut8_wf(*lut),
        lut.input_channels == 3,
        lut.output_channels >= 4,
    ensures
        buf@.len() < entries * 3 ==> r == Err::<Vec<u8>, IccError>(
            IccError::DataShortage { entries, width: 3, length: buf@.len() as usize },
        ),
        buf@.len() >= entries * 3 ==> (r is Err <==> (entries > 0
            && lut.number_of_clut_grid_points == 0)),
        buf@.len() >= entries * 3 && r is Err ==> r->Err_0 == IccError::DivideByZero,
        r is Ok ==> r->Ok_0@.len() == entries * 4,
        r is Ok ==> forall|i: int, j: int|
            0 <= i < entries && 0 <= j < 4 ==> #[trigger] r->Ok_0@[i * 4 + j] == lut8_value(
                *lut,
                adapt_all(lut.e_params@, buf@.subrange(i * 3, i * 3 + 3)),
                j,
            ),
{
    if buf.len() / 3 < entries {
        return Err(IccError::DataShortage { entries, width: 3, length: buf.len() });
    }
    if entries > 0 && lut.number_of_clut_grid_points == 0 {
        return Err(IccError::DivideByZero);
    }
    let mut out: Vec<u8> = Vec::new();
    let mut i: usize = 0;
    while i < entries
        invariant
            lut8_wf(*lut),
            lut.input_channels == 3,
            lut.output_channels >= 4,
            entries * 3 <= buf@.len() <= usize::MAX,
            entries > 0 ==> lut.number_of_clut_grid_points != 0,
            i <= entries,
            out@.len() == i * 4,
            forall|a: int, j: int|
                0 <= a < i && 0 <= j < 4 ==> #[trigger] out@[a * 4 + j] == lut8_value(
                    *lut,
                    adapt_all(lut.e_params@, buf@.subrange(a * 3, a * 3 + 3)),
                    j,
                ),
        decreases entries - i,
    {
        let p = i * 3;
        assert(seq![buf[p as int], buf[p + 1], buf[p + 2]] =~= buf@.subrange(i * 3, i * 3 + 3));
        let v = match d3_to_d4_lut8(buf[p], buf[p + 1], buf[p + 2], lut) {
            Ok(v) => v,
            Err(_) => {
                return Err(IccError::DivideByZero);
            },
        };
        out.push(v.0);
        out.push(v.1);
        out.push(v.2);
        out.push(v.3);
        proof {
            assert forall|a: int, j: int| 0 <= a < i + 1 && 0 <= j < 4 implies #[trigger] out@[a
                * 4 + j] == lut8_value(
                *lut,
                adapt_all(lut.e_params@, buf@.subrange(a * 3, a * 3 + 3)),
                j,
            ) by {
                if a < i {
                    assert(a * 4 + j < i * 4) by (nonlinear_arith)
                        requires
                            a < i,
                            j < 4,
                    ;
                }
            }
        }
        i = i + 1;
    }
    Ok(out)
}

/// Three packed bytes per entry (L*a*b*) to four CMYK bytes per entry through
/// a lut16, rounded to nearest. Fails with `DataShortage`, before any
/// conversion, when `buf` holds fewer than `entries * 3` bytes.
pub fn lab_to_cmyk_entries_lut16_u8(buf: &[u8], entries: usize, lut: &Mft2) -> (r: Result<
    Vec<u8>,
    IccError,
>)
    requires
        lut16_wf(*lut),
        lut.input_channels == 3,
        lut.output_channels >= 4,
    ensures
        buf@.len() < entries * 3 ==> r == Err::<Vec<u8>, IccError>(
            IccError::DataShortage { entries, width: 3, length: buf@.len() as usize },
        ),
        buf@.len() >= entries * 3 ==> (r is Err <==> (entries > 0 && (
        lut.number_of_clut_grid_points == 0 || lut.input_table_enteries == 0
            || lut.output_table_enteries == 0))),
        buf@.len() >= entries * 3 && r is Err ==> r->Err_0 == IccError::DivideByZero,
        r is Ok ==> r->Ok_0@.len() == entries * 4,
        r is Ok ==> forall|i: int, j: int|
            0 <= i < entries && 0 <= j < 4 ==> #[trigger] r->Ok_0@[i * 4 + j] == byte_rounded(
                lut16_value(*lut, adapt_all(lut.e_params@, buf@.subrange(i * 3, i * 3 + 3)), j),
            ),
{
    if buf.len() / 3 < entries {
        return Err(IccError::DataShortage { entries, width: 3, length: buf.len() });
    }
    if entries > 0 && (lut.number_of_clut_grid_points == 0 || lut.input_table_enteries == 0
        || lut.output_table_enteries == 0) {
        return Err(IccError::DivideByZero);
    }
    let mut out: Vec<u8> = Vec::new();
    let mut i: usize = 0;
    while i < entries
        invariant
            lut16_wf(*lut),
            lut.input_channels == 3,
            lut.output_channels >= 4,
            entries * 3 <= buf@.len() <= usize::MAX,
            entries > 0 ==> lut.number_of_clut_grid_points != 0 && lut.input_table_enteries != 0
                && lut.output_table_enteries != 0,
            i <= entries,
            out@.len() == i * 4,
            forall|a: int, j: int|
                0 <= a < i && 0 <= j < 4 ==> #[trigger] out@[a * 4 + j] == byte_rounded(
                    lut16_value(
                        *lut,
                        adapt_all(lut.e_params@, buf@.subrange(a * 3, a * 3 + 3)),
                        j,
                    ),
                ),
        decreases entries - i,
    {
        let p = i * 3;
        assert(seq![buf[p as int], buf[p + 1], buf[p + 2]] =~= buf@.subrange(i * 3, i * 3 + 3));
        let v = match lab_to_cmyk_lut16_u8(buf[p], buf[p + 1], buf[p + 2], lut) {
            Ok(v) => v,
            Err(_) => {
                return Err(IccError::DivideByZero);
            },
        };
        out.push(v.0);
        out.push(v.1);
        out.push(v.2);
        out.push(v.3);
        proof {
            assert forall|a: int, j: int| 0 <= a < i + 1 && 0 <= j < 4 implies #[trigger] out@[a
                * 4 + j] == byte_rounded(
                lut16_value(*lut, adapt_all(lut.e_params@, buf@.subrange(a * 3, a * 3 + 3)), j),
            ) by {
                if a < i {
                    assert(a * 4 + j < i * 4) by (nonlinear_arith)
                        requires
                            a < i,
                            j < 4,
                    ;
                }
            }
        }
        i = i + 1;
    }
    Ok(out)
}

/// The table a CMYK -> PCS conversion of a profile goes through.
pub enum LutChoice<'a> {
    Lut16(&'a Mft2),
    Lut8(&'a Mft1),
    /// No usable table: the additive approximation applies.
    Additive,
}

/// The colour-space signature "CMYK".
pub const CMYK_SIGNATURE: u32 = 0x434d594b;

/// Picks the profile's A2B0 table for converting CMYK: a lut16 or lut8 there
/// whose tables have their declared sizes, four inputs and at least three
/// outputs. Anything else (another colour space, no A2B0 tag, another payload
/// kind, a table of the wrong shape) leaves the additive approximation.
pub fn cmyk_lut_choice<'a>(decoded: &'a DecodedICCProfile) -> (r: LutChoice<'a>)
    ensures
        decoded.color_space != CMYK_SIGNATURE ==> r is Additive,
        r matches LutChoice::Lut16(m) ==> decoded.tags.maps("A2B0"@, Data::Lut16(*m))
            && lut16_wf(*m) && m.input_channels == 4 && m.output_channels >= 3,
        r matches LutChoice::Lut8(m) ==> decoded.tags.maps("A2B0"@, Data::Lut8(*m)) && lut8_wf(
            *m,
        ) && m.input_channels == 4 && m.output_channels >= 3,
        decoded.color_space == CMYK_SIGNATURE && r is Additive ==> forall|d: Data|
            #[trigger] decoded.tags.maps("A2B0"@, d) ==> !decoded.tags.wf() || match d {
                Data::Lut16(m) => !(lut16_wf(m) && m.input_channels == 4 && m.output_channels
                    >= 3),
                Data::Lut8(m) => !(lut8_wf(m) && m.input_channels == 4 && m.output_channels >= 3),
                _ => true,
            },
{
    if decoded.color_space != CMYK_SIGNATURE {
        return LutChoice::Additive;
    }
    match decoded.tags.get("A2B0") {
        Some(Data::Lut16(m)) => {
            if lut16_is_wf(m) && m.input_channels == 4 && m.output_channels >= 3 {
                LutChoice::Lut16(m)
            } else {
                proof {
                    lemma_unique_payload(decoded, Data::Lut16(*m));
                }
                LutChoice::Additive
            }
        },
        Some(Data::Lut8(m)) => {
            if lut8_is_wf(m) && m.input_channels == 4 && m.output_channels >= 3 {
                LutChoice::Lut8(m)
            } else {
                proof {
                    lemma_unique_payload(decoded, Data::Lut8(*m));
                }
                LutChoice::Additive
            }
        },
        Some(d) => {
            proof {
                lemma_unique_payload(decoded, *d);
            }
            LutChoice::Additive
        },
        None => LutChoice::Additive,
    }
}

/// In a table where each signature appears once, A2B0 holds one payload.
proof fn lemma_unique_payload(decoded: &DecodedICCProfile, d: Data)
    requires
        decoded.tags.maps("A2B0"@, d),
    ensures
        forall|e: Data| #[trigger] decoded.tags.maps("A2B0"@, e) && decoded.tags.wf() ==> e == d,
{
    assert forall|e: Data| #[trigger] decoded.tags.maps("A2B0"@, e) && decoded.tags.wf() implies e
        == d by {
        let i = choose|i: int|
            0 <= i < decoded.tags.entries@.len() && #[trigger] decoded.tags.entries@[i].name@
                == "A2B0"@ && decoded.tags.entries@[i].data == d;
        let j = choose|j: int|
            0 <= j < decoded.tags.entries@.len() && #[trigger] decoded.tags.entries@[j].name@
                == "A2B0"@ && decoded.tags.entries@[j].data == e;
        if i < j {
            assert(decoded.tags.entries@[i].name@ != decoded.tags.entries@[j].name@);
        } else if j < i {
            assert(decoded.tags.entries@[j].name@ != decoded.tags.entries@[i].name@);
        }
    }
}

} // verus!
