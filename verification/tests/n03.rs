use duck_geocoder::n03::{columns_of, parse_geojson, parse_zip, N03Error};
use std::io::Write;

const SAMPLE: &str = r#"
{
  "type": "FeatureCollection",
  "name": "N03-test",
  "crs": { "type": "name", "properties": { "name": "urn:ogc:def:crs:EPSG::6668" } },
  "features": [
    { "type": "Feature", "properties": { "N03_001": "神奈川県", "N03_002": null, "N03_003": null, "N03_004": "横浜市", "N03_005": "鶴見区", "N03_007": "14101" }, "geometry": { "type": "MultiPolygon", "coordinates": [ [ [ [ 139.0, 35.0 ], [ 139.1, 35.0 ], [ 139.1, 35.1 ], [ 139.0, 35.0 ] ] ] ] } }
  ]
}
"#;

#[test]
fn parses_feature_properties_and_geometry() {
    let rows = parse_geojson(SAMPLE).unwrap().rows;
    assert_eq!(rows.len(), 1);
    let row = &rows[0];
    assert_eq!(row.pref_name, "神奈川県");
    assert_eq!(row.subprefecture_name, None);
    assert_eq!(row.county_name, None);
    assert_eq!(row.city_name.as_deref(), Some("横浜市"));
    assert_eq!(row.ward_name.as_deref(), Some("鶴見区"));
    assert_eq!(row.admin_id, "14101");
    assert_eq!(row.geometry.len(), 1, "expected a single polygon ring");
    let exterior = &row.geometry[0].exterior;
    assert!((f64::from_bits(exterior[0].x.bits) - 139.0).abs() < 1e-6);
    assert!((f64::from_bits(exterior[0].y.bits) - 35.0).abs() < 1e-6);
}

#[test]
fn rejects_non_feature_collection() {
    let err = parse_geojson(r#"{"type":"Point","coordinates":[1.0,2.0]}"#).unwrap_err();
    assert!(err.to_string().contains("FeatureCollection"));
}

#[test]
fn rejects_missing_required_property() {
    let missing_pref_name = r#"
    {
      "type": "FeatureCollection",
      "crs": { "type": "name", "properties": { "name": "urn:ogc:def:crs:EPSG::6668" } },
      "features": [
        { "type": "Feature", "properties": { "N03_007": "14101" }, "geometry": { "type": "MultiPolygon", "coordinates": [ [ [ [ 139.0, 35.0 ], [ 139.1, 35.0 ], [ 139.1, 35.1 ], [ 139.0, 35.0 ] ] ] ] } }
      ]
    }
    "#;
    let err = parse_geojson(missing_pref_name).unwrap_err();
    assert!(err.to_string().contains("N03_001"));
}

#[test]
fn n03_rejects_missing_crs() {
    let missing_crs = r#"
    {
      "type": "FeatureCollection",
      "features": [
        { "type": "Feature", "properties": { "N03_001": "神奈川県", "N03_007": "14101" }, "geometry": { "type": "MultiPolygon", "coordinates": [ [ [ [ 139.0, 35.0 ], [ 139.1, 35.0 ], [ 139.1, 35.1 ], [ 139.0, 35.0 ] ] ] ] } }
      ]
    }
    "#;
    assert!(parse_geojson(missing_crs).is_err());
}

fn archive(entries: &[(&str, &[u8])]) -> Vec<u8> {
    let mut zip = zip::ZipWriter::new(std::io::Cursor::new(Vec::new()));
    for (name, data) in entries {
        zip.start_file(*name, zip::write::SimpleFileOptions::default())
            .unwrap();
        zip.write_all(data).unwrap();
    }
    zip.finish().unwrap().into_inner()
}

#[test]
fn reads_the_areas_in_full_from_an_archive() {
    let zip = archive(&[
        ("N03-test.geojson", SAMPLE.as_bytes()),
        ("N03-test_prefecture.geojson", b"{}" as &[u8]),
    ]);
    let source = parse_zip(&zip).unwrap();
    assert_eq!(source.epsg, 6668);
    assert_eq!(source.rows.len(), 1);
    assert_eq!(f64::from_bits(source.bounds.xmax.bits), 139.1);
    assert_eq!(f64::from_bits(source.bounds.ymin.bits), 35.0);
}

#[test]
fn takes_a_single_polygon_as_a_list_of_one() {
    let single = SAMPLE
        .replace("MultiPolygon", "Polygon")
        .replace("[ [ [ [ 139.0", "[ [ [ 139.0")
        .replace("35.0 ] ] ] ]", "35.0 ] ] ]");
    let rows = parse_geojson(&single).unwrap().rows;
    assert_eq!(rows[0].geometry.len(), 1);
    assert_eq!(rows[0].geometry[0].exterior.len(), 4);
}

#[test]
fn closes_a_ring_that_is_open() {
    let open = SAMPLE.replace(", [ 139.0, 35.0 ] ] ]", " ] ]");
    let rows = parse_geojson(&open).unwrap().rows;
    let ring = &rows[0].geometry[0].exterior;
    assert_eq!(ring.len(), 4);
    assert_eq!(ring[0], ring[3]);
}

#[test]
fn rejects_what_is_no_area() {
    let point = SAMPLE
        .replace("MultiPolygon", "Point")
        .replace("[ [ [ [ 139.0, 35.0 ], [ 139.1, 35.0 ], [ 139.1, 35.1 ], [ 139.0, 35.0 ] ] ] ]", "[ 139.0, 35.0 ]");
    assert_eq!(parse_geojson(&point).unwrap_err(), N03Error::UnexpectedGeometry);
    let without_id = SAMPLE.replace(r#", "N03_007": "14101""#, "");
    assert_eq!(parse_geojson(&without_id).unwrap_err(), N03Error::MissingAdminId);
}

#[test]
fn areas_have_six_columns() {
    let columns = columns_of(&parse_geojson(SAMPLE).unwrap().rows);
    let names: Vec<&str> = columns.iter().map(|c| c.name.as_str()).collect();
    assert_eq!(
        names,
        vec![
            "pref_name",
            "subprefecture_name",
            "county_name",
            "city_name",
            "ward_name",
            "admin_id",
        ]
    );
}
