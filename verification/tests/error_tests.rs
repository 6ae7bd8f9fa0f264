use nc2mongo::{require_dimension, Error};

#[test]
fn missing_required_dimension_is_a_source_format_error() {
    let r = require_dimension(None);
    assert!(matches!(r, Err(Error::SourceFormat)));
    assert_eq!(require_dimension(Some(42)).unwrap(), 42);
}

#[test]
fn every_error_kind_describes_itself() {
    assert_eq!(
        Error::SourceFormat.describe(),
        "required dimension or variable is missing"
    );
    assert_eq!(
        Error::UnsupportedType.describe(),
        "storage type outside the decodable set"
    );
    assert_eq!(Error::Encoding.describe(), "byte sequence is not valid text");
    assert_eq!(
        Error::DimensionMismatch.describe(),
        "declared shape does not match the data"
    );
    assert_eq!(Error::Sink.describe(), "persistence failure");
}
