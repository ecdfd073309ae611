use dicom_app::pixel::{window_value_text, ColorModel};
use dicom_app::voi::{parse_decimal, render_voi, Decimal, VoiAttributes};

fn dec(s: &str) -> Decimal {
    parse_decimal(s).unwrap()
}

fn window(c: &str, w: &str) -> VoiAttributes {
    VoiAttributes { slope: None, intercept: None, window: Some((dec(c), dec(w))) }
}

#[test]
fn decimals_parse_exactly() {
    assert_eq!(parse_decimal("40"), Some(Decimal { mantissa: 40, scale: 0 }));
    assert_eq!(parse_decimal(" -1024.50 "), Some(Decimal { mantissa: -102450, scale: 2 }));
    assert_eq!(parse_decimal("+.5"), Some(Decimal { mantissa: 5, scale: 1 }));
    assert_eq!(parse_decimal("7."), Some(Decimal { mantissa: 7, scale: 0 }));
    assert_eq!(parse_decimal("123456789"), Some(Decimal { mantissa: 123456789, scale: 0 }));
    assert_eq!(parse_decimal("1234567890"), None);
    assert_eq!(parse_decimal("1e3"), None);
    assert_eq!(parse_decimal("1.2.3"), None);
    assert_eq!(parse_decimal("."), None);
    assert_eq!(parse_decimal("-"), None);
    assert_eq!(parse_decimal(""), None);
}

#[test]
fn window_attribute_first_segment() {
    assert_eq!(window_value_text("40\\400"), "40");
    assert_eq!(window_value_text(" 128 , 256"), "128");
    assert_eq!(window_value_text("50"), "50");
}

#[test]
fn full_window_over_data_range_is_identity() {
    let r = render_voi(ColorModel::Monochrome, 8, &vec![0, 64, 128, 255], 2, 2, window("128", "256")).unwrap();
    assert_eq!(r.pixels, vec![0, 64, 128, 255]);
}

#[test]
fn narrow_window_clamps_and_interpolates() {
    let r = render_voi(ColorModel::Monochrome, 8, &vec![0, 80, 100, 120, 200], 5, 1, window("100", "50")).unwrap();
    assert_eq!(r.pixels, vec![0, 26, 130, 234, 255]);
    for pair in r.pixels.windows(2) {
        assert!(pair[0] <= pair[1]);
    }
}

#[test]
fn window_of_width_one_is_a_threshold() {
    let r = render_voi(ColorModel::Monochrome, 8, &vec![1, 2, 3], 3, 1, window("2", "1")).unwrap();
    assert_eq!(r.pixels, vec![0, 255, 255]);
}

#[test]
fn non_positive_width_skips_windowing() {
    let r = render_voi(ColorModel::Monochrome, 8, &vec![0, 50, 100], 3, 1, window("10", "0")).unwrap();
    assert_eq!(r.pixels, vec![0, 127, 255]);
}

#[test]
fn rescale_slope_and_intercept() {
    let a = VoiAttributes { slope: Some(dec("2")), intercept: Some(dec("-10")), window: None };
    assert_eq!(render_voi(ColorModel::Monochrome, 8, &vec![1, 2, 3], 3, 1, a).unwrap().pixels, vec![0, 127, 255]);
    let a = VoiAttributes { slope: Some(dec("-1")), intercept: None, window: None };
    assert_eq!(render_voi(ColorModel::Monochrome, 8, &vec![1, 2, 3], 3, 1, a).unwrap().pixels, vec![255, 127, 0]);
    let a = VoiAttributes { slope: Some(dec("0")), intercept: Some(dec("5")), window: None };
    assert_eq!(render_voi(ColorModel::Monochrome, 8, &vec![1, 2, 3], 3, 1, a).unwrap().pixels, vec![0, 0, 0]);
}

#[test]
fn rescale_then_window_in_hounsfield_units() {
    // Stored 0..=2048 with intercept -1024: a soft-tissue window 40/400.
    let bytes: Vec<u8> = [0u16, 1000, 1064, 1200, 2048].iter().flat_map(|v| v.to_le_bytes()).collect();
    let a = VoiAttributes { slope: Some(dec("1")), intercept: Some(dec("-1024")), window: Some((dec("40"), dec("400"))) };
    let r = render_voi(ColorModel::Monochrome, 16, &bytes, 5, 1, a).unwrap();
    // Values -1024, -24, 40, 176, 1024 against the window [-160, 239].
    assert_eq!(r.pixels, vec![0, 86, 127, 214, 255]);
}

#[test]
fn exact_path_checks_dimensions() {
    assert!(render_voi(ColorModel::Monochrome, 8, &vec![1, 2, 3], 2, 2, window("2", "4")).is_err());
}
