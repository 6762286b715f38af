use flate2::write::GzEncoder;
use flate2::Compression;
use margin_notes::extractor::MarginNotesExtractor;
use margin_notes::oo3::OO3File;
use margin_notes::reading::ExtractError;
use margin_notes::text::file_name_of;
use std::io::Write;

fn gzip(text: &[u8]) -> Vec<u8> {
    let mut encoder = GzEncoder::new(Vec::new(), Compression::default());
    encoder.write_all(text).unwrap();
    encoder.finish().unwrap()
}

#[test]
fn container_paths() {
    let oo3 = OO3File::new("/data/book.oo3".to_string());
    assert_eq!(oo3.0, "/data/book.oo3");
    assert_eq!(oo3.contents_path(), "/data/book.oo3/contents.xml");
    assert_eq!(oo3.image_pattern(), "/data/book.oo3/*.png");
}

#[test]
fn compressed_outline_is_decoded() {
    let oo3 = OO3File::new("x".to_string());
    assert_eq!(oo3.xml_raw(&gzip("<a>héllo</a>".as_bytes())), Ok("<a>héllo</a>".to_string()));
    assert_eq!(oo3.xml_raw(&gzip(b"")), Ok(String::new()));
}

#[test]
fn bytes_that_are_not_gzip_are_refused() {
    let oo3 = OO3File::new("x".to_string());
    assert_eq!(oo3.xml_raw(b"<a/>"), Err(ExtractError::Container));
    assert_eq!(oo3.xml_raw(b""), Err(ExtractError::Container));
    assert!(matches!(oo3.xml(b"plain"), Err(ExtractError::Container)));
}

#[test]
fn compressed_bytes_that_are_not_text_are_refused() {
    let oo3 = OO3File::new("x".to_string());
    assert_eq!(oo3.xml_raw(&gzip(&[0xff, 0xfe, 0x00])), Err(ExtractError::Container));
}

#[test]
fn compressed_outline_is_parsed() {
    let oo3 = OO3File::new("x".to_string());
    let xml = "<outline xmlns=\"http://www.omnigroup.com/namespace/OmniOutliner/v3\"><root><item><values><text><p><run><lit>Only</lit></run></p></text></values></item></root></outline>";
    let package = oo3.xml(&gzip(xml.as_bytes())).unwrap();
    let notes = MarginNotesExtractor::new().unwrap().read_items(package).unwrap();
    assert_eq!(notes.len(), 1);
    assert_eq!(notes.item(1).given_title, Some("Only".to_string()));
}

#[test]
fn compressed_text_that_is_not_xml_is_a_parse_error() {
    let oo3 = OO3File::new("x".to_string());
    assert!(matches!(oo3.xml(&gzip(b"not xml")), Err(ExtractError::Parse)));
}

#[test]
fn file_name_follows_the_last_slash() {
    assert_eq!(file_name_of("a/b/c.png"), "c.png");
    assert_eq!(file_name_of("c.png"), "c.png");
    assert_eq!(file_name_of("a/b/"), "");
    assert_eq!(file_name_of(""), "");
    assert_eq!(file_name_of("/é/ü.png"), "ü.png");
}
