use qsv2flv::{Error, ErrorKind};

#[test]
fn error_kind_accessors() {
    let e = Error::new(ErrorKind::IncorrectQsvVersion);
    assert!(matches!(e.kind(), ErrorKind::IncorrectQsvVersion));
    assert!(!e.is_io_error());
    assert!(matches!(e.into_kind(), ErrorKind::IncorrectQsvVersion));
}

#[test]
fn error_io_is_io() {
    let e = Error::new(ErrorKind::Io("gone".to_string()));
    assert!(e.is_io_error());
    assert_eq!(e.kind().to_string(), "gone");
}

#[test]
fn error_messages() {
    assert_eq!(ErrorKind::IncorrectQsvVersion.to_string(), "incorrect qsv version");
    assert_eq!(ErrorKind::IncorrectQsvFormat.to_string(), "incorrect qsv format");
    assert_eq!(ErrorKind::QsvTagsIsEmpty.to_string(), "qsv has 0 tags");
    assert_eq!(ErrorKind::MediaDurationIsTooShort.to_string(), "media duration is too short");
}
