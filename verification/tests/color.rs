use color_palette::color::{Color, ColorError, PRECISION_VAL};

fn unit(parts: u32) -> f64 {
    parts as f64 / 100000.0
}

fn hsl_of(color: Color) -> (f64, f64, f64) {
    let (h, s, l) = color.hsl();
    (unit(h), unit(s), unit(l))
}

fn hsla_of(color: Color) -> (f64, f64, f64, f64) {
    let (h, s, l, a) = color.hsla();
    (unit(h), unit(s), unit(l), unit(a))
}

#[test]
fn new_color_with_opacity() {
    let input_color = Color::new(255, 255, 255, 255);
    assert_eq!(input_color.red, 255);
    assert_eq!(input_color.green, 255);
    assert_eq!(input_color.blue, 255);
    assert_eq!(input_color.opacity, 255);
}

#[test]
fn new_color_without_opacity() {
    let input_color = Color::new_solid(255, 255, 255);
    assert_eq!(input_color.red, 255);
    assert_eq!(input_color.green, 255);
    assert_eq!(input_color.blue, 255);
    assert_eq!(input_color.opacity, 255);
}

#[test]
fn rgb() {
    let input_color = Color::new(125, 125, 233, 198);
    assert_eq!(input_color.rgb(), (125, 125, 233));
}

#[test]
fn rgba() {
    let input_color = Color::new(125, 125, 233, 198);
    assert_eq!(input_color.rgba(), (125, 125, 233, 198));
}

#[test]
fn hsl() {
    assert_eq!(hsl_of(Color::new_solid(0, 0, 0)), (0.0, 0.0, 0.0));
    assert_eq!(hsl_of(Color::new_solid(255, 255, 255)), (0.0, 0.0, 1.0));
    assert_eq!(hsl_of(Color::new_solid(255, 0, 0)), (0.0, 1.0, 0.5));
    assert_eq!(hsl_of(Color::new_solid(0, 255, 0)), (120.0, 1.0, 0.5));
    assert_eq!(hsl_of(Color::new_solid(0, 0, 255)), (240.0, 1.0, 0.5));
    assert_eq!(hsl_of(Color::new_solid(255, 0, 255)), (300.0, 1.0, 0.5));
    assert_eq!(hsl_of(Color::new_solid(191, 191, 191)), (0.0, 0.0, 0.74902));
    assert_eq!(hsl_of(Color::new_solid(0, 128, 0)), (120.0, 1.0, 0.25098));
}

#[test]
fn hsla() {
    assert_eq!(hsla_of(Color::new(0, 0, 0, 0)), (0.0, 0.0, 0.0, 0.0));
    assert_eq!(hsla_of(Color::new(255, 255, 255, 255)), (0.0, 0.0, 1.0, 1.0));
    assert_eq!(hsla_of(Color::new(255, 0, 0, 125)), (0.0, 1.0, 0.5, 0.4902));
}

#[test]
fn hex() {
    assert_eq!(Color::new_solid(0, 0, 0).hex(), "#000000");
    assert_eq!(Color::new_solid(255, 255, 255).hex(), "#FFFFFF");
}

#[test]
fn hexa() {
    assert_eq!(Color::new(0, 0, 0, 0).hexa(), "#00000000");
    assert_eq!(Color::new(255, 255, 255, 255).hexa(), "#FFFFFFFF");
}

#[test]
fn from_hex() {
    assert_eq!(Color::from_hex("#000000").rgb(), (0, 0, 0));
    assert_eq!(Color::from_hex("#000").rgb(), (0, 0, 0));
    assert_eq!(Color::from_hex("#00000000").rgba(), (0, 0, 0, 0));
    assert_eq!(Color::from_hex("#FFFFFF").rgb(), (255, 255, 255));
    assert_eq!(Color::from_hex("#FFF").rgb(), (255, 255, 255));
    assert_eq!(Color::from_hex("#FFFFFFFF").rgba(), (255, 255, 255, 255));
    assert_eq!(Color::from_hex("#7F1F00").rgb(), (127, 31, 0));
}

#[test]
fn precision_is_five_digits() {
    assert_eq!(PRECISION_VAL, 5);
}

#[test]
fn channels_come_back_unchanged() {
    for (r, g, b, a) in [(0u8, 0u8, 0u8, 0u8), (1, 2, 3, 4), (255, 254, 253, 252), (17, 0, 200, 255)] {
        assert_eq!(Color::new(r, g, b, a).rgba(), (r, g, b, a));
        assert_eq!(Color::from_rgba(r, g, b, a).rgba(), (r, g, b, a));
        assert_eq!(Color::new_solid(r, g, b).rgba(), (r, g, b, 255));
        assert_eq!(Color::from_rgb(r, g, b).rgba(), (r, g, b, 255));
    }
}

#[test]
fn to_opaque_sets_only_the_opacity() {
    assert_eq!(Color::new(1, 2, 3, 4).to_opaque(), Color::new(1, 2, 3, 255));
    assert_eq!(Color::new(9, 8, 7, 255).to_opaque(), Color::new(9, 8, 7, 255));
}

#[test]
fn from_hsl_is_not_implemented() {
    assert_eq!(Color::from_hsl(), Err(ColorError::NotImplemented));
    assert_eq!(Color::from_hsla(), Err(ColorError::NotImplemented));
}

#[test]
fn hex_writes_upper_case_pairs() {
    assert_eq!(Color::new(171, 205, 239, 1).hex(), "#ABCDEF");
    assert_eq!(Color::new(171, 205, 239, 1).hexa(), "#ABCDEF01");
    assert_eq!(Color::new(10, 9, 160, 15).hexa(), "#0A09A00F");
}

#[test]
fn hexa_round_trips() {
    let mut value: u32 = 1;
    for _ in 0..200 {
        value = value.wrapping_mul(1664525).wrapping_add(1013904223);
        let [r, g, b, a] = value.to_be_bytes();
        let color = Color::new(r, g, b, a);
        assert_eq!(Color::from_hex(&color.hexa()), color);
        assert_eq!(Color::try_from_hex(&color.hexa().to_lowercase()), Ok(color));
        assert_eq!(Color::from_hex(&color.hex()), color.to_opaque());
    }
}

#[test]
fn from_hex_ignores_case_and_hash() {
    assert_eq!(Color::from_hex("FFF").rgb(), (255, 255, 255));
    assert_eq!(Color::from_hex("abcdef").rgb(), (171, 205, 239));
    assert_eq!(Color::from_hex("#aBcDeF").rgb(), (171, 205, 239));
    assert_eq!(Color::from_hex("#abc").rgba(), (170, 187, 204, 255));
    assert_eq!(Color::from_hex("1a2B3c4D").rgba(), (26, 43, 60, 77));
}

#[test]
fn short_form_doubles_each_digit() {
    assert_eq!(Color::from_hex("#123").rgba(), (0x11, 0x22, 0x33, 255));
    assert_eq!(Color::from_hex("#F0a").rgba(), (255, 0, 170, 255));
}

#[test]
fn from_hex_rejects_wrong_sizes() {
    for text in ["", "#", "1", "12", "#12", "1234", "#1234", "12345", "#12345", "1234567", "#1234567", "123456789", "#123456789"] {
        assert_eq!(Color::try_from_hex(text), Err(ColorError::WrongSize), "{:?}", text);
    }
}

#[test]
fn from_hex_rejects_other_characters() {
    for text in ["#GGG", "12345G", "#+F+F+F", "+1+2+3+4", "##FFFFF", "#FF FF ", "-12", "#\u{e9}\u{e9}\u{e9}", "\u{fb00}\u{fb00}\u{fb00}"] {
        assert_eq!(Color::try_from_hex(text), Err(ColorError::InvalidDigit), "{:?}", text);
    }
}

#[test]
fn only_one_hash_is_taken_off() {
    assert_eq!(Color::try_from_hex("##FFF"), Err(ColorError::WrongSize));
    assert_eq!(Color::try_from_hex("##FF"), Err(ColorError::InvalidDigit));
}

#[test]
fn hsl_exact_parts() {
    assert_eq!(Color::new_solid(191, 191, 191).hsl(), (0, 0, 74902));
    assert_eq!(Color::new_solid(0, 128, 0).hsl(), (12_000_000, 100_000, 25_098));
    assert_eq!(Color::new_solid(255, 0, 255).hsl(), (30_000_000, 100_000, 50_000));
    // hue 60 * (10 - 30) / 190 + 360 = 353.68421..., saturation 190 / 210, lightness 210 / 510
    assert_eq!(Color::new_solid(200, 10, 30).hsl(), (35_368_421, 90_476, 41_176));
    // green is the largest: 60 * ((200 - 10) / 240 + 2) = 167.5
    assert_eq!(Color::new_solid(10, 250, 200).hsl(), (16_750_000, 96_000, 50_980));
    // blue is the largest: 60 * ((100 - 50) / 150 + 4) = 260
    assert_eq!(Color::new_solid(100, 50, 200).hsl(), (26_000_000, 60_000, 49_020));
}

#[test]
fn hsl_rounds_a_half_up() {
    // saturation 2 / 128 = 0.015625
    assert_eq!(Color::new_solid(65, 63, 63).hsl().1, 1563);
}

#[test]
fn hsl_red_and_green_equal_takes_the_red_formula() {
    assert_eq!(Color::new_solid(255, 255, 0).hsl(), (6_000_000, 100_000, 50_000));
}

#[test]
fn hsl_stays_in_range() {
    let mut value: u32 = 7;
    for _ in 0..2000 {
        value = value.wrapping_mul(1664525).wrapping_add(1013904223);
        let [r, g, b, a] = value.to_be_bytes();
        let (h, s, l, o) = Color::new(r, g, b, a).hsla();
        assert!(h < 36_000_000);
        assert!(s <= 100_000);
        assert!(l <= 100_000);
        assert!(o <= 100_000);
    }
}

#[test]
fn hsla_opacity_parts() {
    assert_eq!(Color::new(0, 0, 0, 125).hsla().3, 49_020);
    assert_eq!(Color::new(0, 0, 0, 1).hsla().3, 392);
    assert_eq!(Color::new(0, 0, 0, 255).hsla().3, 100_000);
}

#[test]
fn str_rgb_writes_red_then_blue_twice() {
    assert_eq!(Color::new(1, 20, 255, 7).str_rgb(), "1, 255, 255");
    assert_eq!(Color::new(100, 20, 0, 7).str_rgb(), "100, 0, 0");
    assert_eq!(Color::new(99, 20, 10, 7).str_rgb(), "99, 10, 10");
}

#[test]
fn str_rgba_adds_the_opacity() {
    assert_eq!(Color::new(1, 20, 255, 7).str_rgba(), "1, 255, 255, 7");
    assert_eq!(Color::new(0, 0, 109, 200).str_rgba(), "0, 109, 109, 200");
}
