use ncd_cli::format::guess_format;
use ncd_cli::format::Format;
use ncd_cli::source_kind::guess_source;
use ncd_cli::source_kind::Source;

#[test]
fn test_format_from_mime_type() {
    assert_eq!(Format::from_mime_type("text/plain"), Some(Format::Flat));
    assert_eq!(Format::from_mime_type("image/png"), None);
    assert_eq!(Format::from_mime_type(""), None);
}

#[test]
fn test_format_from_cli() {
    assert_eq!(Format::from_cli("flat", None), Some(Format::Flat));
    assert_eq!(Format::from_cli("flat", Some(Format::Flat)), Some(Format::Flat));
    assert_eq!(Format::from_cli("guess", Some(Format::Flat)), Some(Format::Flat));
    assert_eq!(Format::from_cli("guess", None), None);
    assert_eq!(Format::from_cli("gdbm", Some(Format::Flat)), None);
}

#[test]
fn test_guess_format() {
    assert_eq!(guess_format(b"key value\n"), Some(Format::Flat));
    assert_eq!(guess_format(&[0x00, 0xC0, 0xFF]), None);
}

#[test]
fn test_guess_source() {
    assert_eq!(guess_source("http://host/store.ncd"), Source::Http);
    assert_eq!(guess_source("https://host/store.ncd"), Source::Http);
    assert_eq!(guess_source("data//store.ncd"), Source::Http);
    assert_eq!(guess_source("/var/data/store.ncd"), Source::File);
    assert_eq!(guess_source("store.ncd"), Source::File);
    assert_eq!(guess_source(""), Source::File);
    assert_eq!(guess_source("/"), Source::File);
}

#[test]
fn test_source_new() {
    assert_eq!(Source::new(Some("file"), "http://host/x"), Source::File);
    assert_eq!(Source::new(Some("http"), "local.ncd"), Source::Http);
    assert_eq!(Source::new(Some("guess"), "http://host/x"), Source::Http);
    assert_eq!(Source::new(Some("guess"), "local.ncd"), Source::File);
    assert_eq!(Source::new(None, "http://host/x"), Source::Http);
    assert_eq!(Source::new(None, "local.ncd"), Source::File);
}
