use captcha_engine::image::{
    answer_digits, challenge_svg, color_code, is_angle, random_color, svg_document, ANGLE_MAX_LEN,
    CHANNEL_MAX, CHANNEL_MIN, GLYPHS,
};
use captcha_engine::render::{generate_image, render_png, CANVAS_HEIGHT, CANVAS_WIDTH, MAX_SIDE};

const PNG_SIGNATURE: [u8; 8] = [0x89, b'P', b'N', b'G', 0x0D, 0x0A, 0x1A, 0x0A];

fn texts(items: [&str; 5]) -> Vec<String> {
    items.iter().map(|s| s.to_string()).collect()
}

/// Width and height from the header of a PNG file.
fn png_size(bytes: &[u8]) -> (u32, u32) {
    assert!(bytes.len() > 24);
    assert_eq!(&bytes[..8], &PNG_SIGNATURE);
    assert_eq!(&bytes[8..12], &[0, 0, 0, 13]);
    assert_eq!(&bytes[12..16], b"IHDR");
    let w = u32::from_be_bytes([bytes[16], bytes[17], bytes[18], bytes[19]]);
    let h = u32::from_be_bytes([bytes[20], bytes[21], bytes[22], bytes[23]]);
    (w, h)
}

#[test]
fn answer_digits_pads_with_zeros() {
    assert_eq!(answer_digits(0), [0, 0, 0, 0, 0]);
    assert_eq!(answer_digits(7), [0, 0, 0, 0, 7]);
    assert_eq!(answer_digits(4821), [0, 4, 8, 2, 1]);
    assert_eq!(answer_digits(12345), [1, 2, 3, 4, 5]);
    assert_eq!(answer_digits(90000), [9, 0, 0, 0, 0]);
    assert_eq!(answer_digits(99999), [9, 9, 9, 9, 9]);
}

#[test]
fn answer_digits_agree_with_padded_formatting() {
    for answer in (0..=99999u32).step_by(7) {
        let digits = answer_digits(answer);
        let text: String = digits.iter().map(|d| char::from_digit(*d, 10).unwrap()).collect();
        assert_eq!(text, format!("{:05}", answer));
    }
}

#[test]
fn color_code_writes_two_upper_case_hex_digits_per_channel() {
    assert_eq!(color_code(0, 0, 0), "#000000");
    assert_eq!(color_code(255, 255, 255), "#FFFFFF");
    assert_eq!(color_code(0x22, 0xCC, 0x7f), "#22CC7F");
    assert_eq!(color_code(1, 10, 171), "#010AAB");
    for v in 0..256u32 {
        assert_eq!(color_code(v, 255 - v, v / 2), format!("#{:02X}{:02X}{:02X}", v, 255 - v, v / 2));
    }
}

#[test]
fn random_color_stays_within_the_channel_bounds() {
    assert_eq!(CHANNEL_MIN, 0x22);
    assert_eq!(CHANNEL_MAX, 0xCC);
    let mut seen: Vec<String> = Vec::new();
    for _ in 0..500 {
        let color = random_color();
        assert_eq!(color.len(), 7);
        assert!(color.starts_with('#'));
        for k in 0..3 {
            let part = &color[1 + 2 * k..3 + 2 * k];
            assert!(part.chars().all(|c| c.is_ascii_digit() || ('A'..='F').contains(&c)));
            let channel = u32::from_str_radix(part, 16).unwrap();
            assert!(CHANNEL_MIN <= channel && channel <= CHANNEL_MAX);
        }
        if !seen.contains(&color) {
            seen.push(color);
        }
    }
    assert!(seen.len() > 1);
}

#[test]
fn svg_document_is_the_expected_text() {
    let colors = texts(["#222222", "#CCCCCC", "#2A3B4C", "#AB22CC", "#777777"]);
    let rotations = texts(["0", "-8", "7.5", "3.25", "-0.125"]);
    let svg = svg_document(&[0, 4, 8, 2, 1], &colors, &rotations);
    let expected = "<svg xmlns='http://www.w3.org/2000/svg' height='100' width='280'>\n    \
<text font-family='Ani' font-size='50' x='40' y='75' fill='#222222' transform='rotate(0)'>0</text>\n    \
<text font-family='Ani' font-size='50' x='80' y='75' fill='#CCCCCC' transform='rotate(-8)'>4</text>\n    \
<text font-family='Ani' font-size='50' x='120' y='75' fill='#2A3B4C' transform='rotate(7.5)'>8</text>\n    \
<text font-family='Ani' font-size='50' x='160' y='75' fill='#AB22CC' transform='rotate(3.25)'>2</text>\n    \
<text font-family='Ani' font-size='50' x='200' y='75' fill='#777777' transform='rotate(-0.125)'>1</text>\n\
</svg>";
    assert_eq!(svg, expected);
}

#[test]
fn challenge_svg_shows_the_digits_in_muted_colors() {
    assert_eq!(GLYPHS, 5);
    let rotations = texts(["1", "2", "3", "4", "5"]);
    let svg = challenge_svg(4821, &rotations);
    let lines: Vec<&str> = svg.lines().collect();
    assert_eq!(lines.len(), 7);
    assert_eq!(lines[0], "<svg xmlns='http://www.w3.org/2000/svg' height='100' width='280'>");
    assert_eq!(lines[6], "</svg>");
    let digits = ["0", "4", "8", "2", "1"];
    for i in 0..5 {
        let line = lines[1 + i];
        let head = format!("    <text font-family='Ani' font-size='50' x='{}' y='75' fill='#", 40 + 40 * i);
        assert!(line.starts_with(&head), "{}", line);
        let rest = &line[head.len()..];
        let color = &rest[..6];
        for k in 0..3 {
            let channel = u32::from_str_radix(&color[2 * k..2 * k + 2], 16).unwrap();
            assert!(0x22 <= channel && channel <= 0xCC);
        }
        let tail = format!("' transform='rotate({})'>{}</text>", rotations[i], digits[i]);
        assert_eq!(&rest[6..], tail);
    }
}

/// How a PNG file of 280 by 100 begins.
const START_280_100: [u8; 24] = [
    137, 80, 78, 71, 13, 10, 26, 10, 0, 0, 0, 13, 73, 72, 68, 82, 0, 0, 1, 24, 0, 0, 0, 100,
];

#[test]
fn canvas_is_280_by_100() {
    assert_eq!((CANVAS_WIDTH, CANVAS_HEIGHT), (280, 100));
    assert!(CANVAS_WIDTH <= MAX_SIDE && CANVAS_HEIGHT <= MAX_SIDE);
}

#[test]
fn render_png_gives_a_picture_of_the_size_of_the_document() {
    let fonts = usvg::fontdb::Database::new();
    let rotations = texts(["0", "-8", "8", "3.5", "-1.25"]);
    for answer in [0u32, 4821, 99999] {
        let svg = challenge_svg(answer, &rotations);
        let bytes = render_png(&svg, &fonts);
        assert_eq!(png_size(&bytes), (280, 100));
        assert_eq!(&bytes[..24], &START_280_100);
        let canvas = tiny_skia::Pixmap::decode_png(&bytes).unwrap();
        assert_eq!((canvas.width(), canvas.height()), (280, 100));
    }
}

#[test]
fn generate_image_gives_a_png_of_the_canvas_size() {
    let fonts = usvg::fontdb::Database::new();
    let rotations = texts(["0", "-8", "8", "3.5", "-1.25"]);
    for answer in [0u32, 4821, 99999] {
        let bytes = generate_image(answer, &rotations, &fonts);
        assert_eq!(&bytes[..24], &START_280_100);
    }
}

#[test]
fn generate_image_takes_every_angle_that_is_a_numeral() {
    let fonts = usvg::fontdb::Database::new();
    let mut machine_fonts = usvg::fontdb::Database::new();
    machine_fonts.load_system_fonts();
    let runs = [
        vec![
            "-0".to_string(),
            "9".repeat(ANGLE_MAX_LEN),
            format!("0.{}1", "0".repeat(ANGLE_MAX_LEN - 3)),
            "0000360.000".to_string(),
            format!("-{}.{}", "8".repeat(31), "8".repeat(31)),
        ],
        vec![
            "340282350000000000000000000000000000000".to_string(),
            "-340282350000000000000000000000000000000".to_string(),
            "340282350000000000000000000000000000001".to_string(),
            "90".to_string(),
            "0.000000000000000000000000000000000000000000001".to_string(),
        ],
    ];
    for rotations in runs {
        assert!(rotations.iter().all(|r| is_angle(r)));
        let bytes = generate_image(12345, &rotations, &fonts);
        assert_eq!(&bytes[..24], &START_280_100);
        let bytes = generate_image(90909, &rotations, &machine_fonts);
        assert_eq!(&bytes[..24], &START_280_100);
    }
}

#[test]
fn generate_image_draws_with_the_fonts_of_the_machine() {
    let mut fonts = usvg::fontdb::Database::new();
    fonts.load_system_fonts();
    let rotations = texts(["-8", "8", "0.5", "-3.75", "0"]);
    for answer in [4821u32, 99999, 7] {
        let bytes = generate_image(answer, &rotations, &fonts);
        assert_eq!(&bytes[..24], &START_280_100);
        let canvas = tiny_skia::Pixmap::decode_png(&bytes).unwrap();
        assert_eq!((canvas.width(), canvas.height()), (280, 100));
    }
}

#[test]
fn generate_image_draws_every_answer_at_the_angles_of_the_service() {
    let fonts = usvg::fontdb::Database::new();
    let mut angle: f32 = -8.0;
    for answer in (0..=99999u32).step_by(4999) {
        let rotations: Vec<String> = (0..5)
            .map(|k| {
                let value = (angle + k as f32 * 3.1).clamp(-8.0, 8.0);
                format!("{}", value)
            })
            .collect();
        assert!(rotations.iter().all(|r| is_angle(r)));
        let bytes = generate_image(answer, &rotations, &fonts);
        assert_eq!(&bytes[..24], &START_280_100);
        angle += 0.37;
    }
}

#[test]
fn is_angle_takes_decimal_numerals() {
    for text in ["0", "8", "-8", "-0", "7.5", "-7.5", "0.125", "-0.000001", "12", "007", "3.0", "10.50"] {
        assert!(is_angle(text), "{:?}", text);
    }
}

#[test]
fn is_angle_refuses_everything_else() {
    for text in [
        "", "-", ".", "-.", "7.", ".5", "-.5", "+7", "--7", "7-", "7.5.1", "7..5", "1e3", "1E3",
        " 7", "7 ", "7,5", "NaN", "inf", "-inf", "0x10", "7'", "7)", "0)'><", "2'><", "٣", "７",
        "7\u{661}", "7.\u{661}", "-\u{661}", "é", "1_0", "1 0",
    ] {
        assert!(!is_angle(text), "{:?}", text);
    }
}

#[test]
fn is_angle_refuses_a_numeral_that_is_too_long() {
    assert_eq!(ANGLE_MAX_LEN, 64);
    assert!(is_angle(&"1".repeat(64)));
    assert!(!is_angle(&"1".repeat(65)));
    assert!(is_angle(&format!("-{}", "1".repeat(63))));
    assert!(!is_angle(&format!("-{}", "1".repeat(64))));
    assert!(is_angle(&format!("0.{}", "1".repeat(62))));
    assert!(!is_angle(&format!("0.{}", "1".repeat(63))));
    assert!(!is_angle(&"9".repeat(400)));
}

#[test]
fn is_angle_takes_what_a_float_is_written_as() {
    let mut value: f32 = -8.0;
    while value <= 8.0 {
        assert!(is_angle(&format!("{}", value)), "{}", value);
        value += 0.0625;
    }
    for value in [0.0f32, -0.0, 1e-7, -1e-7, 7.999999, -7.999999, 1.0e-20, 0.1, 1.0 / 3.0] {
        assert!(is_angle(&format!("{}", value)), "{}", value);
    }
    // the smallest values above zero are the longest to write
    let mut longest = 0;
    for bits in (1u32..0x0100_0000).step_by(4093).chain([1, 2, 3, 0x007f_ffff, 0x0080_0000]) {
        for value in [f32::from_bits(bits), -f32::from_bits(bits)] {
            let text = format!("{}", value);
            assert!(is_angle(&text), "{}", text);
            longest = longest.max(text.len());
        }
    }
    assert!(longest <= ANGLE_MAX_LEN);
    let mut bits: u32 = 0x9e37_79b9;
    for _ in 0..20000 {
        bits = bits.wrapping_mul(1664525).wrapping_add(1013904223);
        let value = f32::from_bits(bits);
        if value.is_finite() && value.abs() <= 8.0 {
            let text = format!("{}", value);
            assert!(is_angle(&text), "{}", text);
        }
    }
}
