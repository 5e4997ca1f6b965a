use laibrary::parser::ListingError;
use laibrary::text::FormatterError;
use laibrary::{DependencyResolutionError, ExtractionError, LaibraryError, LibraryMetadataError};

#[test]
fn library_error_messages() {
    assert_eq!(ExtractionError::Io("disk".to_string()).message(), "disk");
    assert_eq!(ExtractionError::Malformed("bad".to_string()).message(), "bad");
    assert_eq!(
        DependencyResolutionError::RetrievalFailure("net".to_string()).message(),
        "Failed to retrieve dependency: net"
    );
    assert_eq!(DependencyResolutionError::MissingDependency("serde".to_string()).message(), "'serde' is not a dependency");
    assert_eq!(LaibraryError::Parse("p".to_string()).message(), "p");
    assert_eq!(LaibraryError::UnsupportedLanguage("go".to_string()).message(), "Unsupported language: go");
    assert_eq!(LaibraryError::InvalidPath("x".to_string()).message(), "Invalid path: x");
    assert_eq!(LibraryMetadataError::MissingManifest("gone".to_string()).message(), "gone");
    assert_eq!(LibraryMetadataError::MalformedManifest("odd".to_string()).message(), "odd");
    assert_eq!(FormatterError::EmptyInput.message(), "Input text cannot be empty");
    assert_eq!(FormatterError::InvalidEncoding.message(), "Text contains invalid UTF-8 characters");
}

#[test]
fn listing_errors_become_parse_errors() {
    let cases = [
        (ListingError::MissingDirectory("/c/src".to_string()), "Directory does not exist: /c/src"),
        (ListingError::UnreadableDirectory("denied".to_string()), "Failed to read directory: denied"),
        (ListingError::UnreadableEntry("gone".to_string()), "Failed to read directory entry: gone"),
    ];
    for (listing, expected) in cases {
        assert_eq!(listing.to_error(), LaibraryError::Parse(expected.to_string()));
    }
}
