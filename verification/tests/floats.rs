//! Texts of floats.

use og_param::decimal::reading::read_float;
use og_param::decimal::text_of_float;

fn shown(value: f32) -> String {
    text_of_float(value.to_bits())
}

#[test]
fn floats_show_their_shortest_text() {
    assert_eq!(shown(1.5), "1.5");
    assert_eq!(shown(1.0), "1");
    assert_eq!(shown(-2.25), "-2.25");
    assert_eq!(shown(0.1), "0.1");
    assert_eq!(shown(100.0), "100");
    assert_eq!(shown(0.3), "0.3");
    assert_eq!(shown(1.0 / 3.0), "0.33333334");
    assert_eq!(shown(16_777_216.0), "16777216");
    assert_eq!(shown(1e10), "10000000000");
    assert_eq!(shown(1e-7), "0.0000001");
    assert_eq!(shown(f32::MAX), "340282350000000000000000000000000000000");
    assert_eq!(shown(f32::MIN_POSITIVE), "0.000000000000000000000000000000000000011754944");
    assert_eq!(shown(f32::from_bits(1)), "0.000000000000000000000000000000000000000000001");
}

#[test]
fn floats_that_are_no_decimals_have_names() {
    assert_eq!(shown(0.0), "0");
    assert_eq!(shown(-0.0), "-0");
    assert_eq!(shown(f32::INFINITY), "inf");
    assert_eq!(shown(f32::NEG_INFINITY), "-inf");
    assert_eq!(shown(f32::NAN), "NaN");
    assert_eq!(text_of_float(0xFFC0_0001), "NaN");
}

#[test]
fn float_halfway_between_two_texts_takes_the_larger() {
    assert_eq!(shown(1_048_576.25), "1048576.3");
    assert_eq!(shown(1_048_576.75), "1048576.8");
}

#[test]
fn powers_of_two_show_as_the_standard_library_shows_them() {
    for exponent in 0..255u32 {
        for bits in [exponent << 23, (exponent << 23) + 1, (exponent << 23) + 0x7F_FFFF] {
            assert_eq!(text_of_float(bits), f32::from_bits(bits).to_string(), "{bits:08x}");
        }
    }
}

#[test]
fn floats_show_as_the_standard_library_shows_them() {
    let mut bits = 0x1234_5678u32;
    for _ in 0..1500 {
        bits = bits.wrapping_mul(1_664_525).wrapping_add(1_013_904_223);
        assert_eq!(text_of_float(bits), f32::from_bits(bits).to_string(), "{bits:08x}");
    }
}

#[test]
fn close_floats_show_as_the_standard_library_shows_them() {
    for bits in (1_048_576.0f32.to_bits()..).step_by(1).take(1500) {
        assert_eq!(text_of_float(bits), f32::from_bits(bits).to_string(), "{bits:08x}");
    }
}

fn read(text: &str) -> Option<u32> {
    text.parse::<f32>().ok().map(f32::to_bits)
}

#[test]
fn texts_read_as_the_nearest_float() {
    assert_eq!(read_float("1.5"), Some(0x3FC0_0000));
    assert_eq!(read_float("-1.5"), Some(0xBFC0_0000));
    assert_eq!(read_float("16777217"), Some(16_777_216.0f32.to_bits()));
    assert_eq!(read_float("16777219"), Some(16_777_220.0f32.to_bits()));
    assert_eq!(read_float("16777217.0000001"), Some(16_777_218.0f32.to_bits()));
    assert_eq!(read_float("1e39"), Some(f32::INFINITY.to_bits()));
    assert_eq!(read_float("-1e-60"), Some((-0.0f32).to_bits()));
    assert_eq!(read_float("two"), None);
}

#[test]
fn texts_read_as_the_standard_library_reads_them() {
    for text in [
        "0", "-0", "+0", "5", "5.", ".5", "0.5", "+.5e1", "1e10", "1E-10", "1e+5", "-2.5E3", "1e39",
        "1e38", "3.4028235e38", "3.4028236e38", "3.40282357e38", "3.4028235677973366e38",
        "340282356779733661637539395458142568447", "340282356779733661637539395458142568448",
        "1e-45", "7e-46", "7.006492321624085e-46", "7.0064923216240854e-46", "1.4e-45", "1e-46",
        "0.000000000000000000000000000000000000000000001", "1.1754944e-38", "1.1754942e-38",
        "16777216", "16777217", "16777218", "16777219", "0.1", "0.10000000149011612", "1e400",
        "1e-400", "0e999999999999999999999999", "1e999999999999999999999999",
        "1e-999999999999999999999999", "1e0000000000000000000000000001", "123456789123456789",
        "00000000000000000000000000000000000000000000000001.50000000000000000000000000000000000",
        "inf", "-inf", "+inf", "INF", "infinity", "-Infinity", "nan", "NaN", "-nan", "+NAN",
        "", "+", "-", ".", "e", "e5", ".e5", "1e", "1e+", "1e-", "1e5.", "1e5e5", "1.2.3", "--1",
        "+-1", "1 ", " 1", "1_000", "0x10", "1f", "infin", "nano", "in", "1e+-5", "\u{0661}", "1,5",
    ] {
        assert_eq!(read_float(text), read(text), "{text}");
    }
}

#[test]
fn shown_floats_read_back() {
    let mut bits = 0x9876_5432u32;
    for _ in 0..300 {
        bits = bits.wrapping_mul(1_664_525).wrapping_add(1_013_904_223);
        if !f32::from_bits(bits).is_nan() {
            assert_eq!(read_float(&text_of_float(bits)), Some(bits), "{bits:08x}");
        }
    }
}
