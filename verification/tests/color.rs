use aparte::color::{parse_rgb_str, Color, NamedColor};


#[test]
fn test_rgb_from_str() {
    // Given
    let input = "#0122a3";

    // When
    let rgb = parse_rgb_str(input);

    // Then
    assert_eq!(rgb, Ok(Color::Rgb(0x01, 0x22, 0xa3)));
}

#[test]
fn test_truncated_rgb_from_str() {
    // Given
    let input = "#1122";

    // When
    let rgb = parse_rgb_str(input);

    // Then
    assert_eq!(rgb, Err("Invalid rgb string #1122".to_string()));
}

#[test]
fn test_invalid_rgb_from_str() {
    // Given
    let input = "#1122zz";

    // When
    let rgb = parse_rgb_str(input);

    // Then
    assert_eq!(rgb, Err("Invalid rgb string #1122zz".to_string()));
}

#[test]
fn test_rgb_color_from_str() {
    // Given
    let input = "#0122a3";

    // When
    let rgb = Color::from_str(input);

    // Then
    assert_eq!(rgb, Ok(Color::Rgb(0x01, 0x22, 0xa3)));
}

#[test]
fn test_named_color_from_str() {
    // Given
    let input = "Cyan";

    // When
    let rgb = Color::from_str(input);

    // Then
    assert_eq!(rgb, Ok(Color::Named(NamedColor::Cyan)));
}

#[test]
fn test_invalid_color_from_str() {
    // Given
    let input = "teal";

    // When
    let rgb = Color::from_str(input);

    // Then
    assert_eq!(rgb, Err("Invalid color teal".to_string()));
}

#[test]
fn test_none_color_from_str() {
    assert_eq!(Color::from_str("none"), Ok(Color::Default));
    assert_eq!(Color::from_str("None"), Ok(Color::Default));
    assert_eq!(Color::from_str("default"), Ok(Color::Default));
    assert_eq!(Color::from_str("Default"), Ok(Color::Default));
}

#[test]
fn test_color_to_string_roundtrip() {
    let colors = [
        Color::Default,
        Color::Named(NamedColor::Cyan),
        Color::Named(NamedColor::LightBlue),
        Color::Rgb(0x01, 0x22, 0xa3),
    ];
    for color in colors {
        let s = color.to_string();
        assert_eq!(Color::from_str(&s), Ok(color));
    }
}

#[test]
fn test_rgb_to_string() {
    assert_eq!(Color::Rgb(0x01, 0x22, 0xa3).to_string(), "#0122a3");
}

#[test]
fn test_none_to_string() {
    assert_eq!(Color::Default.to_string(), "none");
}

