use laibrary::text::{Format, FormatterError, TextFormatter};
use laibrary::text::formatter::FormatStream;

#[test]
fn test_uppercase() {
    let formatter = TextFormatter::new(Format::Uppercase);
    assert_eq!(formatter.format("hello").unwrap(), "HELLO");
}

#[test]
fn test_empty_input() {
    let formatter = TextFormatter::new(Format::Uppercase);
    assert!(matches!(formatter.format(""), Err(FormatterError::EmptyInput)));
}

#[test]
fn test_capitalise() {
    let formatter = TextFormatter::new(Format::Capitalise);
    assert_eq!(formatter.format("hello world").unwrap(), "Hello World");
    assert_eq!(formatter.format("THE QUICK BROWN").unwrap(), "The Quick Brown");
}

#[test]
fn lowercase_converts_ascii_letters_only() {
    let formatter = TextFormatter::new(Format::Lowercase);
    assert_eq!(formatter.format("Hello, WORLD 42!").unwrap(), "hello, world 42!");
}

#[test]
fn non_ascii_input_uses_unicode_case_mappings() {
    assert_eq!(TextFormatter::new(Format::Uppercase).format("héllo").unwrap(), "HÉLLO");
    assert_eq!(TextFormatter::new(Format::Lowercase).format("ÀBÇ straße").unwrap(), "àbç straße");
    assert_eq!(TextFormatter::new(Format::Uppercase).format("straße").unwrap(), "STRASSE");
    assert_eq!(TextFormatter::new(Format::Capitalise).format("  élan\u{a0}VITAL ßig ").unwrap(), "Élan Vital SSig");
    assert_eq!(TextFormatter::new(Format::Capitalise).format("ÉCOLE ΟΔΟΣ").unwrap(), "École Οδος");
}

#[test]
fn capitalise_collapses_whitespace_between_words() {
    let formatter = TextFormatter::new(Format::Capitalise);
    assert_eq!(formatter.format("  hello \t\n  wORLD  ").unwrap(), "Hello World");
    assert_eq!(formatter.format("   ").unwrap(), "");
}

#[test]
fn uppercase_is_idempotent_on_examples() {
    let formatter = TextFormatter::new(Format::Uppercase);
    let once = formatter.format("mixed Case text").unwrap();
    let twice = formatter.format(&once).unwrap();
    assert_eq!(once, twice);
}

#[test]
fn error_messages() {
    assert_eq!(FormatterError::EmptyInput.message(), "Input text cannot be empty");
    assert_eq!(FormatterError::InvalidEncoding.message(), "Text contains invalid UTF-8 characters");
}

#[test]
fn format_stream_formats_each_chunk_in_order() {
    let formatter = TextFormatter::new(Format::Uppercase);
    let stream = FormatStream::new(&formatter, vec!["hello", "", "world"]);
    let results = stream.resolve();
    assert_eq!(results.len(), 3);
    assert_eq!(results[0].as_ref().unwrap(), "HELLO");
    assert!(matches!(results[1], Err(FormatterError::EmptyInput)));
    assert_eq!(results[2].as_ref().unwrap(), "WORLD");
}

#[test]
fn capitalise_is_idempotent_on_examples() {
    let formatter = TextFormatter::new(Format::Capitalise);
    for input in ["hELLO   wOrLd", " a b\tc ", "x", "ALREADY Capitalised Text"] {
        let once = formatter.format(input).unwrap();
        assert_eq!(formatter.format(&once).unwrap(), once);
    }
    assert_eq!(formatter.format("hELLO   wOrLd").unwrap(), "Hello World");
}
