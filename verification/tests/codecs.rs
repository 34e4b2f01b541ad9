use dygma_focus::color_vec_to_string;
use dygma_focus::numerical_vec_to_string;
use dygma_focus::rgb_vec_to_string;
use dygma_focus::rgba_vec_to_string;
use dygma_focus::rgbw_vec_to_string;
use dygma_focus::string_to_color_vec;
use dygma_focus::string_to_numerical_vec;
use dygma_focus::string_to_rgb_vec;
use dygma_focus::string_to_rgba_vec;
use dygma_focus::string_to_rgbw_vec;
use dygma_focus::Color;
use dygma_focus::FocusError;
use dygma_focus::RGB;
use dygma_focus::RGBA;
use dygma_focus::RGBW;

#[test]
fn test_string_to_numerical_vec() {
    let input = "41 30 31 32 33 34 35 0 0";
    let expected = vec![41, 30, 31, 32, 33, 34, 35, 0, 0];
    let actual = string_to_numerical_vec::<u8>(input).unwrap();

    assert_eq!(expected, actual);
}

#[test]
fn helpers_test_string_to_numerical_vec() {
    let input = "41 30 31 32 33 34 35 0 0";
    let expected = vec![41, 30, 31, 32, 33, 34, 35, 0, 0];
    let actual = string_to_numerical_vec::<u8>(input).unwrap();

    assert_eq!(expected, actual);
}

#[test]
fn test_numerical_vec_to_string() {
    let input: Vec<u8> = vec![41, 30, 31, 32, 33, 34, 35, 0, 0];
    let expected = "41 30 31 32 33 34 35 0 0";
    let actual = numerical_vec_to_string(&input);

    assert_eq!(expected, actual);
}

#[test]
fn helpers_test_numerical_vec_to_string() {
    let input: Vec<u8> = vec![41, 30, 31, 32, 33, 34, 35, 0, 0];
    let expected = "41 30 31 32 33 34 35 0 0";
    let actual = numerical_vec_to_string(&input);

    assert_eq!(expected, actual);
}

// This fixture holds 64 channel values, which is not divisible by three:
// decoding it as color triples must fail with the exact arity error rather
// than inventing missing channels.
#[test]
fn test_string_to_color_vec() {
    let input = "\
        255 196 0 0 \
        0 254 24 0 \
        0 0 0 255 \
        231 255 0 0 \
        0 254 234 0 \
        0 52 255 0 \
        255 0 232 0 \
        0 77 168 87 \
        125 0 235 19 \
        20 0 36 219 \
        85 0 126 129 \
        255 9 0 0 \
        0 0 0 0 \
        255 172 0 0 \
        0 0 0 0 \
        255 58 0 0";

    let actual = string_to_color_vec(input);

    assert_eq!(actual, Err(FocusError::PartCountError { expected: 3 }));
}

#[test]
fn test_color_vec_to_string() {
    let input = vec![
        Color { r: 41, g: 30, b: 31 },
        Color { r: 32, g: 33, b: 34 },
        Color { r: 35, g: 212, b: 10 },
    ];
    let expected = "41 30 31 32 33 34 35 212 10";

    let result = color_vec_to_string(&input);
    assert_eq!(expected, result);
}

#[test]
fn test_string_to_rgb_vec() {
    let input = "\
        255 196 0 \
        0 0 254 \
        24 0 0 \
        0 0 255 \
        231 255 0 \
        0 0 254 \
        234 0 0 \
        52 255 0 \
        255 0 232 \
        0 0 77 \
        168 87 125 \
        0 235 19 \
        20 0 36 \
        219 85 0 \
        126 129 255 \
        9 0 0 \
        0 0 0 \
        0 255 172 \
        0 0 0 \
        0 0 0 \
        255 58 0";
    let expected = vec![
        RGB { r: 255, g: 196, b: 0 },
        RGB { r: 0, g: 0, b: 254 },
        RGB { r: 24, g: 0, b: 0 },
        RGB { r: 0, g: 0, b: 255 },
        RGB { r: 231, g: 255, b: 0 },
        RGB { r: 0, g: 0, b: 254 },
        RGB { r: 234, g: 0, b: 0 },
        RGB { r: 52, g: 255, b: 0 },
        RGB { r: 255, g: 0, b: 232 },
        RGB { r: 0, g: 0, b: 77 },
        RGB { r: 168, g: 87, b: 125 },
        RGB { r: 0, g: 235, b: 19 },
        RGB { r: 20, g: 0, b: 36 },
        RGB { r: 219, g: 85, b: 0 },
        RGB { r: 126, g: 129, b: 255 },
        RGB { r: 9, g: 0, b: 0 },
        RGB { r: 0, g: 0, b: 0 },
        RGB { r: 0, g: 255, b: 172 },
        RGB { r: 0, g: 0, b: 0 },
        RGB { r: 0, g: 0, b: 0 },
        RGB { r: 255, g: 58, b: 0 },
    ];

    let actual = string_to_rgb_vec(input).unwrap();

    assert_eq!(expected, actual);
}

#[test]
fn test_rgb_vec_to_string() {
    let input = vec![
        RGB { r: 41, g: 30, b: 31 },
        RGB { r: 32, g: 33, b: 34 },
        RGB { r: 35, g: 212, b: 10 },
    ];
    let expected = "41 30 31 32 33 34 35 212 10";

    let result = rgb_vec_to_string(&input);
    assert_eq!(expected, result);
}

#[test]
fn test_string_to_rgba_vec() {
    let input = "\
        255 196 0 0 \
        0 254 24 0 \
        0 0 0 255 \
        231 255 0 0 \
        0 254 234 0 \
        0 52 255 0 \
        255 0 232 0 \
        0 77 168 87 \
        125 0 235 19 \
        20 0 36 219 \
        85 0 126 129 \
        255 9 0 0 \
        0 0 0 0 \
        255 172 0 0 \
        0 0 0 0 \
        255 58 0 0";
    let expected = vec![
        RGBA { r: 255, g: 196, b: 0, a: 0 },
        RGBA { r: 0, g: 254, b: 24, a: 0 },
        RGBA { r: 0, g: 0, b: 0, a: 255 },
        RGBA { r: 231, g: 255, b: 0, a: 0 },
        RGBA { r: 0, g: 254, b: 234, a: 0 },
        RGBA { r: 0, g: 52, b: 255, a: 0 },
        RGBA { r: 255, g: 0, b: 232, a: 0 },
        RGBA { r: 0, g: 77, b: 168, a: 87 },
        RGBA { r: 125, g: 0, b: 235, a: 19 },
        RGBA { r: 20, g: 0, b: 36, a: 219 },
        RGBA { r: 85, g: 0, b: 126, a: 129 },
        RGBA { r: 255, g: 9, b: 0, a: 0 },
        RGBA { r: 0, g: 0, b: 0, a: 0 },
        RGBA { r: 255, g: 172, b: 0, a: 0 },
        RGBA { r: 0, g: 0, b: 0, a: 0 },
        RGBA { r: 255, g: 58, b: 0, a: 0 },
    ];

    let actual = string_to_rgba_vec(input).unwrap();

    assert_eq!(expected, actual);
}

#[test]
fn test_rgba_vec_to_string() {
    let input = vec![
        RGBA { r: 41, g: 30, b: 31, a: 12 },
        RGBA { r: 32, g: 33, b: 34, a: 3 },
        RGBA { r: 35, g: 212, b: 10, a: 32 },
    ];
    let expected = "41 30 31 12 32 33 34 3 35 212 10 32";

    let result = rgba_vec_to_string(&input);
    assert_eq!(expected, result);
}

#[test]
fn numeric_round_trip_u8_u16_u32() {
    let bytes: Vec<u8> = vec![0, 1, 9, 10, 99, 100, 255];
    let encoded = numerical_vec_to_string(&bytes);
    assert_eq!(encoded, "0 1 9 10 99 100 255");
    assert_eq!(string_to_numerical_vec::<u8>(&encoded).unwrap(), bytes);

    let words: Vec<u16> = vec![0, 41, 30, 31, 9999, 65535];
    let encoded = numerical_vec_to_string(&words);
    assert_eq!(string_to_numerical_vec::<u16>(&encoded).unwrap(), words);

    let longs: Vec<u32> = vec![0, 7, 65536, 4294967295];
    let encoded = numerical_vec_to_string(&longs);
    assert_eq!(string_to_numerical_vec::<u32>(&encoded).unwrap(), longs);
}

#[test]
fn numeric_decode_accepts_any_whitespace_runs() {
    let decoded = string_to_numerical_vec::<u16>(" 41\t30\r\n31  32 ").unwrap();
    assert_eq!(decoded, vec![41, 30, 31, 32]);
    let empty = string_to_numerical_vec::<u16>("").unwrap();
    assert_eq!(empty, Vec::<u16>::new());
}

#[test]
fn numeric_decode_rejects_bad_tokens_and_overflow() {
    assert_eq!(
        string_to_numerical_vec::<u8>("1 x 3"),
        Err(FocusError::ParseNumericalVecError { string: "1 x 3".to_string() })
    );
    assert_eq!(
        string_to_numerical_vec::<u8>("255 256"),
        Err(FocusError::ParseNumericalVecError { string: "255 256".to_string() })
    );
    assert_eq!(
        string_to_numerical_vec::<u16>("65535 65536"),
        Err(FocusError::ParseNumericalVecError { string: "65535 65536".to_string() })
    );
    assert_eq!(
        string_to_numerical_vec::<u32>("4294967295 4294967296"),
        Err(FocusError::ParseNumericalVecError { string: "4294967295 4294967296".to_string() })
    );
    assert_eq!(
        string_to_numerical_vec::<u8>("-1"),
        Err(FocusError::ParseNumericalVecError { string: "-1".to_string() })
    );
}

#[test]
fn rgb_round_trip_and_arity_errors() {
    let colors = vec![RGB { r: 1, g: 2, b: 3 }, RGB { r: 254, g: 0, b: 77 }];
    let encoded = rgb_vec_to_string(&colors);
    assert_eq!(encoded, "1 2 3 254 0 77");
    assert_eq!(string_to_rgb_vec(&encoded).unwrap(), colors);

    assert_eq!(
        string_to_rgb_vec("1 2 3 4"),
        Err(FocusError::PartCountError { expected: 3 })
    );
    assert_eq!(
        string_to_rgb_vec("1 2"),
        Err(FocusError::PartCountError { expected: 3 })
    );
    assert_eq!(string_to_rgb_vec("").unwrap(), Vec::<RGB>::new());
}

#[test]
fn rgbw_round_trip_and_arity_errors() {
    let colors = vec![
        RGBW { r: 1, g: 2, b: 3, w: 4 },
        RGBW { r: 255, g: 0, b: 128, w: 9 },
    ];
    let encoded = rgbw_vec_to_string(&colors);
    assert_eq!(encoded, "1 2 3 4 255 0 128 9");
    assert_eq!(string_to_rgbw_vec(&encoded).unwrap(), colors);

    assert_eq!(
        string_to_rgbw_vec("1 2 3 4 5"),
        Err(FocusError::PartCountError { expected: 4 })
    );
    assert_eq!(
        string_to_rgba_vec("1 2 3"),
        Err(FocusError::PartCountError { expected: 4 })
    );
}

#[test]
fn color_round_trip() {
    let colors = vec![Color { r: 10, g: 20, b: 30 }];
    let encoded = color_vec_to_string(&colors);
    assert_eq!(encoded, "10 20 30");
    assert_eq!(string_to_color_vec(&encoded).unwrap(), colors);

    let rgba = vec![RGBA { r: 10, g: 20, b: 30, a: 40 }];
    let encoded = rgba_vec_to_string(&rgba);
    assert_eq!(string_to_rgba_vec(&encoded).unwrap(), rgba);
}

#[test]
fn color_decode_rejects_bad_channels() {
    assert_eq!(
        string_to_rgb_vec("1 2 300"),
        Err(FocusError::ParseNumericalVecError { string: "1 2 300".to_string() })
    );
    assert_eq!(
        string_to_rgbw_vec("1 2 3 four"),
        Err(FocusError::ParseNumericalVecError { string: "1 2 3 four".to_string() })
    );
}
