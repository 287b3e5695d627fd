use apekey::color::WColor;
use apekey::color::hex_to_rgb;

#[test]
fn test_color_parse_wrong_values() {
    let result = hex_to_rgb("");
    assert!(result.is_err());
    let result = hex_to_rgb("fffff");
    assert!(result.is_err());
    let result = hex_to_rgb("fffffffff");
    assert!(result.is_err());
}

#[test]
fn test_color_parse_good_values() {
    let white = WColor { r: 255, g: 255, b: 255, alpha: None };
    let black = WColor { r: 0, g: 0, b: 0, alpha: None };
    let dark_grey = WColor { r: 33, g: 33, b: 33, alpha: None };
    assert_eq!(hex_to_rgb("ffffff").unwrap(), white);
    assert_eq!(hex_to_rgb("#ffffff").unwrap(), white);
    assert_eq!(hex_to_rgb("#000000").unwrap(), black);
    assert_eq!(hex_to_rgb("#212121").unwrap(), dark_grey);
}

#[test]
fn test_color_parse_good_values_with_alpha() {
    let white = WColor { r: 255, g: 255, b: 255, alpha: Some(0) };
    assert_eq!(hex_to_rgb("#ffffff00").unwrap(), white);
}

#[test]
fn test_color_parse_mixed_case_and_channels() {
    assert_eq!(hex_to_rgb("1A2b3C").unwrap(), WColor { r: 26, g: 43, b: 60, alpha: None });
    assert!(hex_to_rgb("1A2b3G").is_err());
    assert!(hex_to_rgb("#").is_err());
}

#[test]
fn test_color_from_rgb_array() {
    assert_eq!(WColor::from([10, 20, 30]), WColor { r: 10, g: 20, b: 30, alpha: None });
}
