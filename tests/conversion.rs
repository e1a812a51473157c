use as7343::anemometer::event_frequency;
use as7343::calibration::{
    basic_counts_of, calibration_basic_counts, gain_value, integration_time_ns, irradiance, Fraction,
};
use as7343::channels::decode_channels;
use as7343::fields::{
    clear_analog_saturation, clear_digital_saturation, combine_le, led_setting, split_le,
    with_auto_smux, with_bank, with_gain, with_measurement, with_power,
};
use as7343::registers::{AS7343_GAIN_1024X, AS7343_LED_STENGTH_12MA};

fn value(f: Fraction) -> f64 {
    f.numerator as f64 / f.denominator as f64
}

#[test]
fn gain_values_for_every_code() {
    assert_eq!(value(gain_value(0).unwrap()), 0.5);
    for g in 1u8..=12 {
        let expected = (1u64 << (g - 1)) as f64;
        assert_eq!(value(gain_value(g).unwrap()), expected);
    }
    assert_eq!(
        gain_value(11),
        Some(Fraction { numerator: 2048, denominator: 2 })
    );
}

#[test]
fn gain_codes_outside_range_are_rejected() {
    assert_eq!(gain_value(13), None);
    assert_eq!(gain_value(31), None);
    assert_eq!(gain_value(255), None);
}

#[test]
fn integration_time_formula() {
    assert_eq!(integration_time_ns(0, 0), 2780);
    assert_eq!(integration_time_ns(100, 999), 101 * 1000 * 2780);
    assert_eq!(integration_time_ns(255, 65535), 256 * 65536 * 2780);
    assert_eq!(integration_time_ns(99, 99), 27_800_000);
    for atime in [0u8, 1, 17, 128, 255] {
        for astep in [0u16, 1, 599, 40000, 65535] {
            let us = (atime as f64 + 1.0) * (astep as f64 + 1.0) * 2.78;
            let got = integration_time_ns(atime, astep) as f64 / 1000.0;
            assert!((got - us).abs() < 1e-6 * us.max(1.0));
        }
    }
}

#[test]
fn irradiance_is_linear_in_reference_constant() {
    let once = irradiance(1234, 8, 100, 999, 3141, 27_800_000, AS7343_GAIN_1024X, 155).unwrap();
    let twice = irradiance(1234, 8, 100, 999, 3141, 27_800_000, AS7343_GAIN_1024X, 310).unwrap();
    assert_eq!(twice.numerator * once.denominator, 2 * once.numerator * twice.denominator);
    assert!((value(twice) - 2.0 * value(once)).abs() < 1e-9 * value(twice));
}

#[test]
fn irradiance_is_inverse_in_reference_count() {
    let once = irradiance(1234, 8, 100, 999, 3000, 27_800_000, AS7343_GAIN_1024X, 155).unwrap();
    let twice = irradiance(1234, 8, 100, 999, 6000, 27_800_000, AS7343_GAIN_1024X, 155).unwrap();
    assert_eq!(2 * twice.numerator * once.denominator, once.numerator * twice.denominator);
    assert!((2.0 * value(twice) - value(once)).abs() < 1e-9 * value(once));
}

#[test]
fn irradiance_at_reference_condition_is_the_constant() {
    let f = irradiance(5749, AS7343_GAIN_1024X, 99, 99, 5749, 27_800_000, AS7343_GAIN_1024X, 155)
        .unwrap();
    assert_eq!(f.numerator, 155 * f.denominator);
    assert!((value(f) - 155.0).abs() < 1e-9);
}

#[test]
fn irradiance_matches_float_formula() {
    // 128x gain, ATIME 100, ASTEP 999, against a 1024x reference at 27.8 ms.
    let f = irradiance(2000, 8, 100, 999, 5749, 27_800_000, AS7343_GAIN_1024X, 155).unwrap();
    let reading_bc = 2000.0 / (128.0 * 101.0 * 1000.0 * 2.78 / 1000.0);
    let reference_bc = 5749.0 / (1024.0 * 27.8);
    let expected = reading_bc / reference_bc * 155.0;
    assert!((value(f) - expected).abs() < 1e-9 * expected);
}

#[test]
fn irradiance_rejections() {
    assert_eq!(irradiance(1, 13, 0, 0, 1, 1, 0, 1), None);
    assert_eq!(irradiance(1, 0, 0, 0, 1, 1, 13, 1), None);
    assert_eq!(irradiance(1, 0, 0, 0, 0, 1, 0, 1), None);
    let zero_time = irradiance(10, 0, 0, 0, 10, 0, 0, 155).unwrap();
    assert_eq!(zero_time.numerator, 0);
    assert!(zero_time.denominator > 0);
}

#[test]
fn decode_matches_manual_little_endian_pairs() {
    let mut seed: u32 = 0x1234_5678;
    for _ in 0..50 {
        let mut data = [0u8; 36];
        for b in data.iter_mut() {
            seed = seed.wrapping_mul(1_664_525).wrapping_add(1_013_904_223);
            *b = (seed >> 24) as u8;
        }
        let counts = decode_channels(&data);
        for i in 0..18 {
            let manual = ((data[2 * i + 1] as u16) << 8) + data[2 * i] as u16;
            assert_eq!(counts[i], manual);
        }
    }
}

#[test]
fn decode_edge_bytes() {
    let data = [0xFFu8; 36];
    assert_eq!(decode_channels(&data), [0xFFFF; 18]);
    let mut data = [0u8; 36];
    data[0] = 0x34;
    data[1] = 0x12;
    data[34] = 0x01;
    data[35] = 0x80;
    let counts = decode_channels(&data);
    assert_eq!(counts[0], 0x1234);
    assert_eq!(counts[17], 0x8001);
    assert_eq!(counts[5], 0);
}

#[test]
fn byte_pairs_combine_by_addition() {
    assert_eq!(combine_le(0xE7, 0x03), 999);
    assert_eq!(combine_le(0xFF, 0xFF), 0xFFFF);
    assert_eq!(split_le(999), (0xE7, 0x03));
    assert_eq!(split_le(0), (0, 0));
}

#[test]
fn clearing_digital_saturation_changes_only_its_bit() {
    for s in 0u8..=255 {
        let r = clear_digital_saturation(s);
        assert_eq!(r ^ s, s & 0x10);
        assert_eq!(r & 0x08, s & 0x08);
    }
    assert_eq!(clear_digital_saturation(0xFF), 0xEF);
    assert_eq!(clear_digital_saturation(0x18), 0x08);
}

#[test]
fn clearing_analog_saturation_changes_only_its_bit() {
    for s in 0u8..=255 {
        let r = clear_analog_saturation(s);
        assert_eq!(r ^ s, s & 0x08);
        assert_eq!(r & 0x10, s & 0x10);
    }
    assert_eq!(clear_analog_saturation(0xFF), 0xF7);
    assert_eq!(clear_analog_saturation(0x18), 0x10);
}

#[test]
fn field_updates_keep_other_bits() {
    assert_eq!(with_bank(0x00, true), 0x10);
    assert_eq!(with_bank(0xFF, false), 0xEF);
    assert_eq!(with_power(0xA0, true), 0xA1);
    assert_eq!(with_power(0xFF, false), 0xFE);
    assert_eq!(with_measurement(0x01, true), 0x03);
    assert_eq!(with_measurement(0xFF, false), 0xFD);
    assert_eq!(with_auto_smux(0x00, 3), 0x60);
    assert_eq!(with_auto_smux(0xFF, 0), 0x9F);
    assert_eq!(with_auto_smux(0x11, 1), 0x31);
    assert_eq!(with_gain(0xFF, 0), 0xE0);
    assert_eq!(with_gain(0x00, 12), 0x0C);
    assert_eq!(with_gain(0xA3, 11), 0xAB);
}

#[test]
fn led_register_values() {
    assert_eq!(led_setting(true, AS7343_LED_STENGTH_12MA), 0xF4);
    assert_eq!(led_setting(false, AS7343_LED_STENGTH_12MA), 0x04);
    assert_eq!(led_setting(false, 0xFF), 0x7F);
}

#[test]
fn anemometer_frequency() {
    assert_eq!(
        event_frequency(1_000_000, 250, false),
        Some(Fraction { numerator: 1_000_000, denominator: 250 })
    );
    assert_eq!(event_frequency(1_000_000, 250, true), None);
    assert_eq!(event_frequency(1_000_000, 0, false), None);
}

#[test]
fn basic_counts_formula() {
    let f = basic_counts_of(2000, 8, 100, 999).unwrap();
    let expected = 2000.0 / (128.0 * 101.0 * 1000.0 * 2.78 / 1000.0);
    assert!((value(f) - expected).abs() < 1e-9 * expected);
    let g = basic_counts_of(1000, 0, 255, 65535).unwrap();
    let expected = 1000.0 / (0.5 * 256.0 * 65536.0 * 2.78 / 1000.0);
    assert!((value(g) - expected).abs() < 1e-9 * expected);
    assert_eq!(basic_counts_of(1, 13, 0, 0), None);
    let c = calibration_basic_counts(5749, 27_800_000, AS7343_GAIN_1024X).unwrap();
    let expected = 5749.0 / (1024.0 * 27.8);
    assert!((value(c) - expected).abs() < 1e-9 * expected);
    assert_eq!(calibration_basic_counts(5749, 0, 0), None);
    assert_eq!(calibration_basic_counts(5749, 1, 13), None);
}
