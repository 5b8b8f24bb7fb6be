use aparte::word::Words;

#[test]
fn test_split_words() {
    // Given
    let input = "three simple words";

    // When
    let words = Words::new(input);

    // Then
    assert_eq!(words.to_vec(), vec!["three ", "simple ", "words"]);
}

#[test]
fn test_split_multiple_spaces() {
    // Given
    let input = "   ";

    // When
    let words = Words::new(input);

    // Then
    assert_eq!(words.to_vec(), vec!["   "]);
}

#[test]
fn test_split_spaces_and_separator() {
    // Given
    let input = "a && b";

    // When
    let words = Words::new(input);

    // Then
    assert_eq!(words.to_vec(), vec!["a ", "&& ", "b"]);
}

#[test]
fn test_split_multibyte_codepoint() {
    // Given
    let input = "I love 🍺 more than 🐈";

    // When
    let words = Words::new(input);

    // Then
    assert_eq!(
        words.to_vec(),
        vec!["I ", "love ", "🍺 ", "more ", "than ", "🐈"]
    );
}

#[test]
fn test_empty_string() {
    // Given
    let input = "";

    // When
    let words = Words::new(input);

    // Then
    assert_eq!(words.to_vec(), Vec::<&str>::new());
}
