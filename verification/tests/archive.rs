use duck_geocoder::archive::{read_utf8_by, read_zip_entry_by, NameRule, ZipEntryError, ZipTextError};
use duck_geocoder::metadata::EpsgError;
use duck_geocoder::{
    decode_sjis, extract_epsg_from_isj_metadata_xml, read_zip_entry, read_zip_entry_bytes,
};
use std::io::Write;

fn archive(entries: &[(&str, &[u8])]) -> Vec<u8> {
    let mut zip = zip::ZipWriter::new(std::io::Cursor::new(Vec::new()));
    for (name, data) in entries {
        zip.start_file(*name, zip::write::SimpleFileOptions::default())
            .unwrap();
        zip.write_all(data).unwrap();
    }
    zip.finish().unwrap().into_inner()
}

#[test]
fn read_zip_entry_bytes_errors_on_ambiguous_match() {
    let zip = archive(&[
        ("foo.geojson", b"detailed" as &[u8]),
        ("foo_prefecture.geojson", b"dissolved" as &[u8]),
    ]);

    let err = read_zip_entry_bytes(&zip, ".geojson").unwrap_err();
    assert!(err.to_string().contains("multiple entries matched"));

    let bytes = read_zip_entry(&zip, |name: &str| {
        name.ends_with(".geojson") && !name.contains("_prefecture")
    })
    .unwrap();
    assert_eq!(bytes, b"detailed");
}

#[test]
fn read_zip_entry_bytes_errors_on_no_match() {
    let zip = archive(&[("foo.csv", b"data" as &[u8])]);
    let err = read_zip_entry_bytes(&zip, ".geojson").unwrap_err();
    assert!(err.to_string().contains("no matching entry"));
}

#[test]
fn names_the_entries_that_matched() {
    let zip = archive(&[("b.txt", b"1" as &[u8]), ("a.txt", b"2" as &[u8])]);
    let err = read_zip_entry_bytes(&zip, ".txt").unwrap_err();
    assert_eq!(err, ZipEntryError::Several(vec!["b.txt".to_string(), "a.txt".to_string()]));
    assert_eq!(
        err.to_string(),
        r#"multiple entries matched: ["b.txt", "a.txt"] (need a more specific predicate)"#
    );
}

#[test]
fn bytes_that_are_no_archive_are_an_error() {
    let err = read_zip_entry_bytes(&vec![1, 2, 3], ".txt").unwrap_err();
    assert!(matches!(err, ZipEntryError::NotZip(_)));
    assert!(err.to_string().starts_with("failed to read zip archive: invalid Zip archive"), "{err:?}");
}

#[test]
fn a_rule_chooses_by_name() {
    let zip = archive(&[
        ("KS-META-N02.xml", "<a/>".as_bytes()),
        ("other.xml", b"<b/>" as &[u8]),
    ]);
    let rule = NameRule { suffix: ".xml", with: Some("KS-META-"), without: None };
    assert_eq!(read_zip_entry_by(&zip, rule).unwrap(), b"<a/>");
    assert_eq!(read_utf8_by(&zip, rule).unwrap(), "<a/>");
}

#[test]
fn text_has_to_be_utf8() {
    let zip = archive(&[("a.txt", &[0xff, 0xfe][..])]);
    let rule = NameRule { suffix: ".txt", with: None, without: None };
    let err = read_utf8_by(&zip, rule).unwrap_err();
    assert!(matches!(err, ZipTextError::NotUtf8(_)));
    assert_eq!(
        err.to_text("N03 geojson"),
        "N03 geojson is expected to be UTF-8: invalid utf-8 sequence of 1 bytes from index 0"
    );
}

#[test]
fn an_entry_that_is_damaged_is_an_error() {
    let options = zip::write::SimpleFileOptions::default()
        .compression_method(zip::CompressionMethod::Stored);
    let mut writer = zip::ZipWriter::new(std::io::Cursor::new(Vec::new()));
    writer.start_file("a.txt", options).unwrap();
    writer.write_all(b"content").unwrap();
    let mut zip = writer.finish().unwrap().into_inner();
    let at = zip.windows(7).position(|w| w == b"content").unwrap();
    zip[at] = b'C';
    let err = read_zip_entry_bytes(&zip, ".txt").unwrap_err();
    assert!(matches!(err, ZipEntryError::Unreadable(_)), "{err:?}");
    assert!(!err.to_string().is_empty());
}

#[test]
fn decodes_shift_jis() {
    assert_eq!(decode_sjis(&[0x93, 0x8c, 0x8b, 0x9e]), "東京");
    assert_eq!(decode_sjis(b"plain"), "plain");
}

fn metadata(code: &str) -> String {
    format!(
        r#"<MD xmlns="urn:x"><referenceSystemIdentifier><codeSpace>y</codeSpace><code>{code}</code></referenceSystemIdentifier></MD>"#
    )
}

#[test]
fn reads_the_reference_system() {
    assert_eq!(
        extract_epsg_from_isj_metadata_xml(&metadata("JGD2000 / (B, L)")).unwrap(),
        4612
    );
    assert_eq!(
        extract_epsg_from_isj_metadata_xml(&metadata(" JGD2011 / (B, L)\n")).unwrap(),
        6668
    );
}

#[test]
fn rejects_a_reference_system_it_does_not_know() {
    let err = extract_epsg_from_isj_metadata_xml(&metadata("JGD2024 / (B, L)")).unwrap_err();
    assert_eq!(err, EpsgError::Unrecognized("JGD2024 / (B, L)".to_string()));
    assert_eq!(
        err.to_string(),
        r#"unrecognized reference system identifier in metadata XML: "JGD2024 / (B, L)""#
    );
    assert!(extract_epsg_from_isj_metadata_xml("<MD/>").is_err());
    assert!(extract_epsg_from_isj_metadata_xml("no xml").is_err());
}
