use duck_geocoder::features::CollectionError;
use duck_geocoder::geoparquet::ColumnData;
use duck_geocoder::n02::{
    extract_vintage, institution_types, parse_geojson, parse_zip, railway_classes, section_columns,
    station_columns, N02Error, N02ZipError, Part, Property,
};
use std::io::Write;

const SECTION_SAMPLE: &str = r#"
{
  "type": "FeatureCollection",
  "name": "N02-25_RailroadSection",
  "crs": { "type": "name", "properties": { "name": "urn:ogc:def:crs:EPSG::6668" } },
  "features": [
    { "type": "Feature", "properties": { "N02_001": "23", "N02_002": "5", "N02_003": "沖縄都市モノレール線", "N02_004": "沖縄都市モノレール" }, "geometry": { "type": "LineString", "coordinates": [ [ 127.67948, 26.21454 ], [ 127.68419, 26.21905 ] ] } },
    { "type": "Feature", "properties": { "N02_001": "11", "N02_002": "1", "N02_003": "東海道新幹線", "N02_004": "東海旅客鉄道" }, "geometry": { "type": "LineString", "coordinates": [ [ 139.0, 35.0 ], [ 139.1, 35.1 ] ] } }
  ]
}
"#;

const STATION_SAMPLE: &str = r#"
{
  "type": "FeatureCollection",
  "name": "N02-25_Station",
  "crs": { "type": "name", "properties": { "name": "urn:ogc:def:crs:EPSG::6668" } },
  "features": [
    { "type": "Feature", "properties": { "N02_001": "11", "N02_002": "2", "N02_003": "指宿枕崎線", "N02_004": "九州旅客鉄道", "N02_005": "二月田", "N02_005c": "010112", "N02_005g": "010112" }, "geometry": { "type": "LineString", "coordinates": [ [ 130.63035, 31.25405 ], [ 130.62985, 31.25459 ] ] } }
  ]
}
"#;

#[test]
fn resolves_codes_to_names() {
    let rows = parse_geojson(SECTION_SAMPLE).unwrap().rows;
    assert_eq!(rows.len(), 2);

    assert_eq!(rows[0].railway_class_code, "23");
    assert_eq!(rows[0].railway_class, "跨座式モノレール");
    assert_eq!(rows[0].institution_type, "第三セクター");
    assert_eq!(rows[0].line_name, "沖縄都市モノレール線");
    assert_eq!(rows[1].railway_class, "普通鉄道JR");
    assert_eq!(rows[1].institution_type, "JRの新幹線");
}

#[test]
fn keeps_raw_codes_alongside_names() {
    let rows = parse_geojson(SECTION_SAMPLE).unwrap().rows;
    assert_eq!(rows[1].railway_class_code, "11");
    assert_eq!(rows[1].institution_type_code, "1");
}

#[test]
fn sections_have_no_station_fields() {
    let rows = parse_geojson(SECTION_SAMPLE).unwrap().rows;
    assert!(rows.iter().all(|r| r.station_name.is_none()));
}

#[test]
fn parses_station_fields() {
    let rows = parse_geojson(STATION_SAMPLE).unwrap().rows;
    assert_eq!(rows.len(), 1);
    assert_eq!(rows[0].station_name.as_deref(), Some("二月田"));
    assert_eq!(rows[0].station_code.as_deref(), Some("010112"));
    assert_eq!(rows[0].station_group_code.as_deref(), Some("010112"));
    assert_eq!(rows[0].geometry.len(), 2);
}

#[test]
fn rejects_unknown_railway_class_code() {
    let unknown = SECTION_SAMPLE.replace(r#""N02_001": "23""#, r#""N02_001": "99""#);
    let err = parse_geojson(&unknown).unwrap_err();
    let message = err.to_string();
    assert!(
        message.contains("鉄道区分") && message.contains("99"),
        "未知のコードだと分かるエラーになっていない: {message}"
    );
}

#[test]
fn rejects_unknown_institution_type_code() {
    let unknown = SECTION_SAMPLE.replace(r#""N02_002": "5""#, r#""N02_002": "9""#);
    let err = parse_geojson(&unknown).unwrap_err();
    assert!(err.to_string().contains("事業者種別"));
}

#[test]
fn rejects_polygon_geometry() {
    let polygon = r#"
    {
      "type": "FeatureCollection",
      "crs": { "type": "name", "properties": { "name": "urn:ogc:def:crs:EPSG::6668" } },
      "features": [
        { "type": "Feature", "properties": { "N02_001": "11", "N02_002": "2", "N02_003": "x", "N02_004": "y" }, "geometry": { "type": "Polygon", "coordinates": [ [ [ 139.0, 35.0 ], [ 139.1, 35.0 ], [ 139.1, 35.1 ], [ 139.0, 35.0 ] ] ] } }
      ]
    }
    "#;
    assert!(parse_geojson(polygon).is_err());
}

#[test]
fn n02_rejects_missing_crs() {
    let missing_crs = SECTION_SAMPLE.replace(
        r#""crs": { "type": "name", "properties": { "name": "urn:ogc:def:crs:EPSG::6668" } },"#,
        "",
    );
    assert!(parse_geojson(&missing_crs).is_err());
}

#[test]
fn write_stations_rejects_section_rows() {
    let rows = parse_geojson(SECTION_SAMPLE).unwrap().rows;
    let err = station_columns(&rows).unwrap_err();
    assert!(err.to_string().contains("駅名"));
}

const META_SAMPLE: &str = r#"<?xml version="1.0" encoding="UTF-8"?>
<MD_Metadata xmlns="http://zgate.gsi.go.jp/ch/jmp/">
  <identificationInfo>
    <citation>
      <title>国土数値情報（鉄道）　N02-25</title>
      <date><date>2026-03-06</date><dateType>003</dateType></date>
    </citation>
  </identificationInfo>
</MD_Metadata>"#;

#[test]
fn reads_vintage_from_metadata() {
    assert_eq!(
        extract_vintage(META_SAMPLE).unwrap(),
        "N02-25 (2026-03-06)",
        "配布元が名乗っている形をそのまま持ち回る (年度に直さない)"
    );
}
#[test]
fn rejects_metadata_without_title() {
    let without_title = r#"<MD_Metadata xmlns="http://zgate.gsi.go.jp/ch/jmp/"></MD_Metadata>"#;
    let err = extract_vintage(without_title).unwrap_err();
    assert!(err.to_string().contains("title"));
}
#[test]
fn code_lists_match_the_published_ones() {
    assert_eq!(railway_classes().len(), 12, "鉄道区分は11〜17と21〜25の12種");
    assert_eq!(institution_types().len(), 5);
    assert!(railway_classes().iter().all(|(c, _)| {
        let n: u32 = c.parse().unwrap();
        (11..=17).contains(&n) || (21..=25).contains(&n)
    }));
}

fn archive(entries: &[(&str, &[u8])]) -> Vec<u8> {
    let mut zip = zip::ZipWriter::new(std::io::Cursor::new(Vec::new()));
    for (name, data) in entries {
        zip.start_file(*name, zip::write::SimpleFileOptions::default())
            .unwrap();
        zip.write_all(data).unwrap();
    }
    zip.finish().unwrap().into_inner()
}

#[test]
fn reads_a_part_and_its_vintage_from_an_archive() {
    let zip = archive(&[
        ("UTF-8/N02-25_RailroadSection.geojson", SECTION_SAMPLE.as_bytes()),
        ("UTF-8/N02-25_Station.geojson", STATION_SAMPLE.as_bytes()),
        ("KS-META-N02-25.xml", META_SAMPLE.as_bytes()),
    ]);
    let (sections, vintage) = parse_zip(&zip, Part::Sections).unwrap();
    assert_eq!(sections.rows.len(), 2);
    assert_eq!(sections.epsg, 6668);
    assert_eq!(vintage, "N02-25 (2026-03-06)");
    assert_eq!(f64::from_bits(sections.bounds.xmin.bits), 127.67948);
    assert_eq!(f64::from_bits(sections.bounds.ymax.bits), 35.1);

    let (stations, _) = parse_zip(&zip, Part::Stations).unwrap();
    assert_eq!(stations.rows[0].station_name.as_deref(), Some("二月田"));
}

#[test]
fn needs_the_metadata_of_an_archive() {
    let zip = archive(&[("N02-25_Station.geojson", STATION_SAMPLE.as_bytes())]);
    assert!(matches!(
        parse_zip(&zip, Part::Stations).unwrap_err(),
        N02ZipError::Metadata(_)
    ));
}

#[test]
fn knows_the_two_parts() {
    assert_eq!(Part::parse("sections"), Some(Part::Sections));
    assert_eq!(Part::parse("stations"), Some(Part::Stations));
    assert_eq!(Part::parse("lines"), None);
}

#[test]
fn names_the_property_that_is_missing() {
    let missing = SECTION_SAMPLE.replace(r#""N02_003": "沖縄都市モノレール線", "#, "");
    let err = parse_geojson(&missing).unwrap_err();
    assert!(matches!(err, N02Error::Missing(Property::LineName)));
    assert_eq!(err.to_string(), "missing N02_003 (line name)");
}

#[test]
fn a_message_quotes_the_code_that_is_unknown() {
    let unknown = SECTION_SAMPLE.replace(r#""N02_002": "5""#, r#""N02_002": "9""#);
    let err = parse_geojson(&unknown).unwrap_err();
    assert_eq!(err.to_string(), r#"未知の事業者種別コードです: "9""#);
}

#[test]
fn a_reference_system_without_a_number_is_named() {
    let unnumbered = SECTION_SAMPLE.replace("EPSG::6668", "OGC:CRS84");
    let err = parse_geojson(&unnumbered).unwrap_err();
    assert_eq!(
        err.to_string(),
        r#"crs name is not a valid EPSG code: "urn:ogc:def:crs:OGC:CRS84""#
    );
}

#[test]
fn rejects_a_feature_without_geometry() {
    let none = r#"{"type":"FeatureCollection",
      "crs":{"type":"name","properties":{"name":"urn:ogc:def:crs:EPSG::6668"}},
      "features":[{"type":"Feature","properties":{},"geometry":null}]}"#;
    assert_eq!(parse_geojson(none).unwrap_err(), N02Error::MissingGeometry);
}

#[test]
fn rejects_text_that_is_no_geojson() {
    assert!(matches!(
        parse_geojson("{").unwrap_err(),
        N02Error::Collection(CollectionError::NotGeoJson(_))
    ));
}

#[test]
fn stations_have_more_columns_than_sections() {
    let sections = section_columns(&parse_geojson(SECTION_SAMPLE).unwrap().rows);
    let names: Vec<&str> = sections.iter().map(|c| c.name.as_str()).collect();
    assert_eq!(
        names,
        vec![
            "railway_class",
            "railway_class_code",
            "institution_type",
            "institution_type_code",
            "line_name",
            "operator",
        ]
    );
    assert_eq!(
        sections[0].data,
        ColumnData::Utf8(vec!["跨座式モノレール".to_string(), "普通鉄道JR".to_string()])
    );
    let stations = station_columns(&parse_geojson(STATION_SAMPLE).unwrap().rows).unwrap();
    assert!(stations.iter().any(|c| c.name == "station_name"));
    assert!(stations.len() > sections.len());
}

#[test]
fn a_title_without_words_has_no_vintage() {
    let blank = META_SAMPLE.replace("国土数値情報（鉄道）　N02-25", "　");
    assert!(extract_vintage(&blank).is_err());
    assert!(extract_vintage("<open>").is_err());
    let undated = META_SAMPLE.replace("<date><date>2026-03-06</date><dateType>003</dateType></date>", "");
    assert_eq!(extract_vintage(&undated).unwrap(), "N02-25");
}
