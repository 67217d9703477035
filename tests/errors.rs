use ygramul::error::{Error, ErrorKind};

#[test]
fn wrapped_errors_describe_their_chain() {
    let inner = Error::new(ErrorKind::Storage, "connection reset".to_string());
    let outer = Error::wrap("Failed to process file".to_string(), inner);
    assert_eq!(outer.kind, ErrorKind::Storage);
    assert_eq!(outer.describe(), "Failed to process file: connection reset");
    let twice = Error::wrap("upload".to_string(), outer.approximate_clone());
    assert_eq!(twice.describe(), "upload: Failed to process file: connection reset");
    let source = twice.source().unwrap();
    assert_eq!(source.describe(), "Failed to process file: connection reset");
    assert!(Error::new(ErrorKind::Upload, "x".to_string()).source().is_none());
}
