use icc_profile::convert::{cmyk_to_rgb, rgb_to_yuv, yuv_to_rgb};
use icc_profile::numbers::{S15Fixed16Number, U16Fixed16Number, U1Fixed15Number, U8Fixed8Number};

#[test]
fn cmyk_fallback_is_additive_and_clamped() {
    assert_eq!(cmyk_to_rgb(10, 200, 100, 200), (45, 145, 0));
    assert_eq!(cmyk_to_rgb(255, 255, 255, 255), (255, 255, 255));
    assert_eq!(cmyk_to_rgb(0, 0, 0, 0), (0, 0, 0));
}

#[test]
fn rgb_to_yuv_bt601() {
    assert_eq!(rgb_to_yuv(255, 255, 255), (255, 0, 0));
    assert_eq!(rgb_to_yuv(100, 50, 25), (62, 0, 27));
    assert_eq!(rgb_to_yuv(0, 0, 0), (0, 0, 0));
}

#[test]
fn yuv_to_rgb_bt601() {
    assert_eq!(yuv_to_rgb(100, 50, 60), (184, 39, 248));
    assert_eq!(yuv_to_rgb(255, 255, 255), (255, 0, 255));
}

#[test]
fn fixed_point_parts() {
    let v = S15Fixed16Number::new(-1, 65535);
    assert_eq!(v.integer_part(), -1);
    assert_eq!(v.decimal(), 65535);
    assert_eq!(U16Fixed16Number::new(3, 7).integer_part(), 3);
    assert_eq!(U1Fixed15Number::new(9).integer_part(), 0);
    assert_eq!(U8Fixed8Number::new(2, 128).decimal(), 128);
}
