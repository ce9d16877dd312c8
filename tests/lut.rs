use icc_profile::lut::{lut16_is_wf, lut8_is_wf};
use icc_profile::transform::{
    cmyk_to_lab_lut16_u8, lab_to_cmyk_entries_lut16_u8, lab_to_cmyk_entries_lut8_u8,
    lab_to_cmyk_lut16_u8,
};
use icc_profile::error::IccError;
use icc_profile::lut::{lut16_eval, LutValue};
use icc_profile::numbers::S15Fixed16Number;
use icc_profile::tags::{Mft1, Mft2};
use icc_profile::transform::{
    d3_to_d1_lut16, d3_to_d3_lut8, d4_to_d3_entries_lut16, d4_to_d3_entries_lut8, d4_to_d3_lut16,
    d4_to_d3_lut8,
};

fn unit_matrix() -> Vec<S15Fixed16Number> {
    let mut e = Vec::new();
    for i in 0..9 {
        if i % 4 == 0 {
            e.push(S15Fixed16Number::new(1, 0));
        } else {
            e.push(S15Fixed16Number::new(0, 0));
        }
    }
    e
}

fn identity16(channels: usize) -> Vec<u16> {
    let mut t = Vec::new();
    for _ in 0..channels {
        for i in 0..256u32 {
            t.push((i * 257) as u16);
        }
    }
    t
}

fn identity8(channels: usize) -> Vec<u8> {
    let mut t = Vec::new();
    for _ in 0..channels {
        for i in 0..256u32 {
            t.push(i as u8);
        }
    }
    t
}

/// Grid of 2 points on 4 axes with 3 outputs: corner 0000 is black, 1111 white.
fn corner_lut16() -> Mft2 {
    let mut clut = vec![0u16; 16 * 3];
    for j in 0..3 {
        clut[15 * 3 + j] = 65535;
    }
    Mft2 {
        input_channels: 4,
        output_channels: 3,
        number_of_clut_grid_points: 2,
        e_params: unit_matrix(),
        input_table_enteries: 256,
        output_table_enteries: 256,
        input_table: identity16(4),
        clut_values: clut,
        output_table: identity16(3),
    }
}

fn value_is(v: LutValue, whole: u128) -> bool {
    v.numerator == whole * v.denominator
}

#[test]
fn it_works() {
    let result = 2 + 2;
    assert_eq!(result, 4);
}

#[test]
fn lut16_corner_scenario_black() {
    let lut = corner_lut16();
    let (a, b, c) = d4_to_d3_lut16(0, 0, 0, 0, &lut).unwrap();
    assert!(value_is(a, 0) && value_is(b, 0) && value_is(c, 0));
}

#[test]
fn lut16_corner_scenario_white() {
    let lut = corner_lut16();
    let (a, b, c) = d4_to_d3_lut16(255, 255, 255, 255, &lut).unwrap();
    assert!(value_is(a, 65535) && value_is(b, 65535) && value_is(c, 65535));
    assert_eq!(a.denominator, 65535u128 << 64);
}

#[test]
fn lut16_two_entry_identity_curves() {
    let mut lut = corner_lut16();
    lut.input_table_enteries = 2;
    lut.output_table_enteries = 2;
    lut.input_table = vec![0, 65535, 0, 65535, 0, 65535, 0, 65535];
    lut.output_table = vec![0, 65535, 0, 65535, 0, 65535];
    let (a, _, _) = d4_to_d3_lut16(0, 0, 0, 0, &lut).unwrap();
    assert!(value_is(a, 0));
    let (a, b, c) = d4_to_d3_lut16(255, 255, 255, 255, &lut).unwrap();
    assert!(value_is(a, 65535) && value_is(b, 65535) && value_is(c, 65535));
}

#[test]
fn lut16_blend_uses_product_of_weights() {
    // Every input curve maps to 16384: a quarter of the way along each axis of
    // a 2-point grid is coordinate 0.5, weight 32768/65536 per axis.
    let mut lut = corner_lut16();
    lut.input_table = vec![16384; 4 * 256];
    let (a, _, _) = d4_to_d3_lut16(7, 7, 7, 7, &lut).unwrap();
    // Blend: 65535 * (1/2)^4 = 4095.9375; output curve (identity, 256
    // entries) at 4095.9375 * 255 / 65535 = 15.9375 -> 15*257 + 0.9375*257.
    let expected_num: u128 = 15 * 257 * 16 + 15 * 257;
    assert_eq!(a.numerator * 16, expected_num * a.denominator);
}

#[test]
fn lut16_zero_grid_fails() {
    let mut lut = corner_lut16();
    lut.number_of_clut_grid_points = 0;
    lut.clut_values = vec![];
    assert_eq!(d4_to_d3_lut16(1, 2, 3, 4, &lut).unwrap_err(), IccError::DivideByZero);
}

#[test]
fn lut16_zero_entries_fails() {
    let mut lut = corner_lut16();
    lut.input_table_enteries = 0;
    lut.input_table = vec![];
    assert_eq!(lut16_eval(&lut, &[1, 2, 3, 4]).unwrap_err(), IccError::DivideByZero);
}

#[test]
fn lut8_grid_point_is_exact() {
    // Input curves map everything to 85: on a 3-point grid that is exactly
    // grid index 1 on each axis, so the corner 1111 comes out unblended.
    let mut clut = vec![0u8; 81 * 3];
    let corner = 27 + 9 + 3 + 1;
    clut[corner * 3] = 10;
    clut[corner * 3 + 1] = 20;
    clut[corner * 3 + 2] = 30;
    clut[80 * 3] = 250;
    let lut = Mft1 {
        input_channels: 4,
        output_channels: 3,
        number_of_clut_grid_points: 3,
        e_params: unit_matrix(),
        input_table: vec![85; 4 * 256],
        clut_values: clut,
        output_table: identity8(3),
    };
    assert_eq!(d4_to_d3_lut8(1, 100, 200, 255, &lut).unwrap(), (10, 20, 30));
}

#[test]
fn lut8_top_input_clamps_to_last_grid_point() {
    let mut clut = vec![0u8; 16 * 3];
    clut[15 * 3] = 200;
    clut[15 * 3 + 1] = 201;
    clut[15 * 3 + 2] = 202;
    let lut = Mft1 {
        input_channels: 4,
        output_channels: 3,
        number_of_clut_grid_points: 2,
        e_params: unit_matrix(),
        input_table: identity8(4),
        clut_values: clut,
        output_table: identity8(3),
    };
    assert_eq!(d4_to_d3_lut8(255, 255, 255, 255, &lut).unwrap(), (200, 201, 202));
    assert_eq!(d4_to_d3_lut8(0, 0, 0, 0, &lut).unwrap(), (0, 0, 0));
}

#[test]
fn batch_short_buffer_is_data_shortage() {
    let lut = corner_lut16();
    let buf = [0u8; 7];
    assert_eq!(
        d4_to_d3_entries_lut16(&buf, 2, &lut).unwrap_err(),
        IccError::DataShortage { entries: 2, width: 4, length: 7 }
    );
}

#[test]
fn batch_lut8_short_buffer_is_data_shortage() {
    let lut = Mft1 {
        input_channels: 4,
        output_channels: 3,
        number_of_clut_grid_points: 2,
        e_params: unit_matrix(),
        input_table: identity8(4),
        clut_values: vec![0; 48],
        output_table: identity8(3),
    };
    assert_eq!(
        d4_to_d3_entries_lut8(&[1, 2, 3], 1, &lut).unwrap_err(),
        IccError::DataShortage { entries: 1, width: 4, length: 3 }
    );
}

#[test]
fn batch_converts_each_entry() {
    let lut = corner_lut16();
    let buf = [0u8, 0, 0, 0, 255, 255, 255, 255];
    let out = d4_to_d3_entries_lut16(&buf, 2, &lut).unwrap();
    assert_eq!(out.len(), 6);
    assert!(value_is(out[0], 0));
    assert!(value_is(out[3], 65535) && value_is(out[5], 65535));
}

#[test]
fn three_channel_matrix_then_table() {
    // A 3-input lut16 whose matrix swaps channels 1 and 3.
    let mut e = vec![S15Fixed16Number::new(0, 0); 9];
    e[2] = S15Fixed16Number::new(1, 0);
    e[4] = S15Fixed16Number::new(1, 0);
    e[6] = S15Fixed16Number::new(1, 0);
    let mut clut = vec![0u16; 8];
    // 2-point grid, 1 output: corner (1, 0, 0) holds 65535.
    clut[4] = 65535;
    let lut = Mft2 {
        input_channels: 3,
        output_channels: 1,
        number_of_clut_grid_points: 2,
        e_params: e,
        input_table_enteries: 256,
        output_table_enteries: 256,
        input_table: identity16(3),
        clut_values: clut,
        output_table: identity16(1),
    };
    // Input (0, 0, 255) becomes (255, 0, 0) after the matrix: grid (1, 0, 0).
    assert!(value_is(d3_to_d1_lut16(0, 0, 255, &lut).unwrap(), 65535));
    assert!(value_is(d3_to_d1_lut16(255, 0, 0, &lut).unwrap(), 0));
}

#[test]
fn three_channel_lut8_negative_matrix_clamps() {
    let mut e = vec![S15Fixed16Number::new(0, 0); 9];
    e[0] = S15Fixed16Number::new(-1, 0);
    e[4] = S15Fixed16Number::new(1, 0);
    e[8] = S15Fixed16Number::new(2, 0);
    let mut clut = vec![0u8; 8 * 3];
    // corner (0, 1, 1)
    clut[3 * 3] = 9;
    clut[3 * 3 + 1] = 8;
    clut[3 * 3 + 2] = 7;
    let lut = Mft1 {
        input_channels: 3,
        output_channels: 3,
        number_of_clut_grid_points: 2,
        e_params: e,
        input_table: identity8(3),
        clut_values: clut,
        output_table: identity8(3),
    };
    // (200, 255, 200) -> (0, 255, 255 clamped from 400): grid (0, 1, 1).
    assert_eq!(d3_to_d3_lut8(200, 255, 200, &lut).unwrap(), (9, 8, 7));
}

#[test]
fn cmyk_to_lab_bytes_through_lut16() {
    let lut = corner_lut16();
    assert_eq!(cmyk_to_lab_lut16_u8(255, 255, 255, 255, &lut).unwrap(), (255, 255, 255));
    assert_eq!(cmyk_to_lab_lut16_u8(0, 0, 0, 0, &lut).unwrap(), (0, 0, 0));
}

#[test]
fn cmyk_to_lab_bytes_rounding() {
    // Blend value 4095.9375 (see the product-of-weights test): L rounds down
    // 4095.9375 * 255 / 65535 = 15.94 to 15, a* and b* round it to 16.
    let mut lut = corner_lut16();
    lut.input_table = vec![16384; 4 * 256];
    assert_eq!(cmyk_to_lab_lut16_u8(7, 7, 7, 7, &lut).unwrap(), (15, 16, 16));
}

fn lab_lut16() -> Mft2 {
    let mut clut = vec![0u16; 8 * 4];
    for j in 0..4 {
        clut[7 * 4 + j] = 65535;
    }
    clut[7 * 4 + 3] = 32768;
    Mft2 {
        input_channels: 3,
        output_channels: 4,
        number_of_clut_grid_points: 2,
        e_params: unit_matrix(),
        input_table_enteries: 256,
        output_table_enteries: 256,
        input_table: identity16(3),
        clut_values: clut,
        output_table: identity16(4),
    }
}

#[test]
fn lab_to_cmyk_bytes_through_lut16() {
    let lut = lab_lut16();
    // 32768 / 65535 * 255 = 127.50 rounds to 128.
    assert_eq!(lab_to_cmyk_lut16_u8(255, 255, 255, &lut).unwrap(), (255, 255, 255, 128));
    assert_eq!(lab_to_cmyk_lut16_u8(0, 0, 0, &lut).unwrap(), (0, 0, 0, 0));
    let out = lab_to_cmyk_entries_lut16_u8(&[0, 0, 0, 255, 255, 255], 2, &lut).unwrap();
    assert_eq!(out, vec![0, 0, 0, 0, 255, 255, 255, 128]);
}

#[test]
fn lab_batch_short_buffer_is_data_shortage() {
    let lut = Mft1 {
        input_channels: 3,
        output_channels: 4,
        number_of_clut_grid_points: 2,
        e_params: unit_matrix(),
        input_table: identity8(3),
        clut_values: vec![0; 32],
        output_table: identity8(4),
    };
    assert_eq!(
        lab_to_cmyk_entries_lut8_u8(&[1, 2, 3, 4, 5], 2, &lut).unwrap_err(),
        IccError::DataShortage { entries: 2, width: 3, length: 5 }
    );
    assert_eq!(lab_to_cmyk_entries_lut8_u8(&[1, 2, 3, 4, 5], 1, &lut).unwrap(), vec![0, 0, 0, 0]);
}

#[test]
fn table_shape_checks() {
    let mut lut = corner_lut16();
    assert!(lut16_is_wf(&lut));
    lut.clut_values.pop();
    assert!(!lut16_is_wf(&lut));
    let lut8 = Mft1 {
        input_channels: 5,
        output_channels: 3,
        number_of_clut_grid_points: 2,
        e_params: unit_matrix(),
        input_table: identity8(5),
        clut_values: vec![0; 96],
        output_table: identity8(3),
    };
    assert!(!lut8_is_wf(&lut8));
}
