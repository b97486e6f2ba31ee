use duck_geocoder::geo::{Bounds, Coord, Polygon, Shape};
use duck_geocoder::geoparquet::{
    covering_bbox, f64_nullable_column, geo_metadata_json, geometry_columns,
    geoparquet_geometry_type, i32_nullable_column, table, utf8_column, utf8_nullable_column,
    ColumnData, CoveringBbox, GeoError, Provenance, Side,
};
use duck_geocoder::number::Real;

const GEO: &str = r#"{
    "version": "1.1.0",
    "primary_column": "geometry",
    "columns": {
        "geometry": {
            "encoding": "WKB",
            "geometry_types": ["MultiPolygon"],
            "covering": { "bbox": {
                "xmin": ["bbox", "xmin"],
                "ymin": ["bbox", "ymin"],
                "xmax": ["bbox", "xmax"],
                "ymax": ["bbox", "ymax"]
            }},
            "bbox": [138.9, 35.1, 139.8, 35.6]
        }
    }
}"#;

fn own() -> CoveringBbox {
    CoveringBbox {
        column: "bbox".to_string(),
        xmin: "xmin".to_string(),
        ymin: "ymin".to_string(),
        xmax: "xmax".to_string(),
        ymax: "ymax".to_string(),
    }
}

fn num(x: f64) -> Real {
    Real { bits: x.to_bits() }
}

fn bounds(b: [f64; 4]) -> Bounds {
    Bounds {
        xmin: num(b[0]),
        ymin: num(b[1]),
        xmax: num(b[2]),
        ymax: num(b[3]),
    }
}

#[test]
fn reads_covering_bbox_paths() {
    let covering = covering_bbox(GEO).unwrap();
    assert_eq!(
        covering,
        CoveringBbox {
            column: "bbox".to_string(),
            xmin: "xmin".to_string(),
            ymin: "ymin".to_string(),
            xmax: "xmax".to_string(),
            ymax: "ymax".to_string(),
        }
    );
}

#[test]
fn rejects_metadata_without_covering() {
    let without_covering = r#"{
        "version": "1.0.0",
        "primary_column": "geometry",
        "columns": { "geometry": { "encoding": "WKB" } }
    }"#;
    let err = covering_bbox(without_covering).unwrap_err();
    assert!(err.to_string().contains("covering"));
}

#[test]
fn rejects_covering_spanning_multiple_columns() {
    let mixed = GEO.replace(r#"["bbox", "ymax"]"#, r#"["other", "ymax"]"#);
    assert!(covering_bbox(&mixed).is_err());
}

#[test]
fn rejects_nested_covering_path() {
    let nested = GEO.replace(r#"["bbox", "xmin"]"#, r#"["a", "b", "c"]"#);
    assert!(covering_bbox(&nested).is_err());
}

#[test]
fn writes_metadata_that_can_be_read_back() {
    let covering = CoveringBbox {
        column: "bbox".to_string(),
        xmin: "xmin".to_string(),
        ymin: "ymin".to_string(),
        xmax: "xmax".to_string(),
        ymax: "ymax".to_string(),
    };
    let json = geo_metadata_json(
        "geometry",
        &covering,
        &vec!["Polygon".to_string(), "MultiPolygon".to_string()],
        bounds([122.0, 20.0, 154.0, 46.0]),
    )
    .unwrap();

    assert_eq!(covering_bbox(&json).unwrap(), covering);

    let value: serde_json::Value = serde_json::from_str(&json).unwrap();
    let column = &value["columns"]["geometry"];
    assert_eq!(value["version"], "1.1.0");
    assert_eq!(column["geometry_types"][1], "MultiPolygon");
    assert_eq!(column["bbox"][0], 122.0);
}

#[test]
fn maps_duckdb_geometry_type_names() {
    assert_eq!(geoparquet_geometry_type("POLYGON").unwrap(), "Polygon");
    assert_eq!(
        geoparquet_geometry_type("MULTIPOLYGON").unwrap(),
        "MultiPolygon"
    );
    assert_eq!(geoparquet_geometry_type("Point").unwrap(), "Point");
}

#[test]
fn rejects_unknown_geometry_type() {
    assert!(geoparquet_geometry_type("TRIANGLE").is_err());
}

#[test]
fn puts_points_into_columns() {
    let points = vec![
        Shape::Point(Coord { x: num(139.0), y: num(35.0) }),
        Shape::Point(Coord { x: num(140.0), y: num(36.0) }),
    ];
    let columns = geometry_columns(&points).unwrap();
    assert_eq!(columns.file_bbox, bounds([139.0, 35.0, 140.0, 36.0]));
    assert_eq!(columns.xmin, vec![num(139.0), num(140.0)]);
    assert_eq!(columns.ymax, vec![num(35.0), num(36.0)]);
    // little endian, type 1, then the two coordinates
    let mut expected = vec![1u8, 1, 0, 0, 0];
    expected.extend(139.0f64.to_le_bytes());
    expected.extend(35.0f64.to_le_bytes());
    assert_eq!(columns.wkb[0], expected);
}

#[test]
fn puts_polygons_and_lines_into_columns() {
    let ring = vec![
        Coord { x: num(0.0), y: num(0.0) },
        Coord { x: num(2.0), y: num(0.0) },
        Coord { x: num(2.0), y: num(3.0) },
        Coord { x: num(0.0), y: num(0.0) },
    ];
    let line = Shape::Line(ring.clone());
    let polygon = Shape::Polygon(Polygon { exterior: ring.clone(), interiors: vec![] });
    let several = Shape::MultiPolygon(vec![Polygon { exterior: ring, interiors: vec![] }]);
    let columns = geometry_columns(&vec![line, polygon, several]).unwrap();
    assert_eq!(columns.wkb[0][1..5], [2, 0, 0, 0]);
    assert_eq!(columns.wkb[1][1..5], [3, 0, 0, 0]);
    assert_eq!(columns.wkb[2][1..5], [6, 0, 0, 0]);
    assert_eq!(columns.file_bbox, bounds([0.0, 0.0, 2.0, 3.0]));
}

#[test]
fn a_table_knows_its_provenance() {
    let geometry =
        geometry_columns(&vec![Shape::Point(Coord { x: num(1.0), y: num(2.0) })]).unwrap();
    let columns = vec![utf8_column("name", vec!["a".to_string()])];
    let provenance = Provenance {
        via: Some("https://example.invalid/".to_string()),
        vintage: Some("N02-25".to_string()),
    };
    let table = table(columns, "geometry", geometry, &vec!["Point".to_string()], &provenance).unwrap();
    assert_eq!(table.primary_column, "geometry");
    assert_eq!(table.metadata[0].0, "geo");
    assert_eq!(covering_bbox(&table.metadata[0].1).unwrap(), own());
    assert_eq!(
        table.metadata[1..],
        [
            ("duck:via".to_string(), "https://example.invalid/".to_string()),
            ("duck:vintage".to_string(), "N02-25".to_string()),
        ]
    );
}

#[test]
fn columns_hold_what_they_are_given() {
    assert_eq!(utf8_nullable_column("a", vec![None]).data, ColumnData::Utf8Nullable(vec![None]));
    assert_eq!(
        f64_nullable_column("b", vec![Some(num(1.5))]).data,
        ColumnData::F64Nullable(vec![Some(num(1.5))])
    );
    assert_eq!(
        i32_nullable_column("c", vec![Some(3), None]).data,
        ColumnData::I32Nullable(vec![Some(3), None])
    );
    assert_eq!(i32_nullable_column("c", vec![]).name, "c");
}

#[test]
fn tells_the_errors_of_metadata_apart() {
    let broken = covering_bbox("{").unwrap_err();
    assert!(matches!(broken, GeoError::NotJson(_)));
    assert_eq!(
        broken.to_string(),
        "`geo` メタデータがJSONとして読めない: EOF while parsing an object at line 1 column 1"
    );
    let long = GEO.replace(r#"["bbox", "ymin"]"#, r#"["bbox", 1, "ymin", "z"]"#);
    assert_eq!(
        covering_bbox(&long).unwrap_err().to_string(),
        "covering.bbox.ymin が [列名, フィールド名] の形ではない: \
         [String(\"bbox\"), Number(1), String(\"ymin\"), String(\"z\")]"
    );
    let missing = GEO.replace(r#""ymin": ["bbox", "ymin"],"#, "");
    assert_eq!(covering_bbox(&missing).unwrap_err(), GeoError::NoPath(Side::Ymin));
    let torn = GEO.replace(r#"["bbox", "xmax"]"#, r#"["box", "xmax"]"#);
    let err = covering_bbox(&torn).unwrap_err();
    assert_eq!(err, GeoError::SeveralColumns("bbox".to_string(), "box".to_string()));
    assert_eq!(err.to_string(), "covering.bbox が複数の列にまたがっている: bbox と box");
    let bare = r#"{"primary_column": "g", "columns": {"g": {}}}"#;
    assert_eq!(
        covering_bbox(bare).unwrap_err().to_string(),
        "`g` に covering.bbox がない (GeoParquet 1.1 の covering が必要)"
    );
}

#[test]
fn metadata_with_the_largest_bounds_reads_back() {
    let types = vec!["Point".to_string(), "LineString".to_string()];
    for corner in [f64::MAX, 1e305, f64::MIN_POSITIVE, 5e-324] {
        let json = geo_metadata_json("g", &own(), &types, bounds([-corner, -corner, corner, corner])).unwrap();
        assert_eq!(covering_bbox(&json).unwrap(), own());
        let value: serde_json::Value = serde_json::from_str(&json).unwrap();
        assert_eq!(value["version"], "1.1.0");
        assert_eq!(value["columns"]["g"]["geometry_types"][0], "Point");
        assert_eq!(value["columns"]["g"]["geometry_types"][1], "LineString");
    }
}

#[test]
fn a_number_that_is_not_finite_is_written_as_null() {
    let json = geo_metadata_json("g", &own(), &vec![], bounds([f64::NAN, 1.0, f64::INFINITY, 2.0])).unwrap();
    let value: serde_json::Value = serde_json::from_str(&json).unwrap();
    assert!(value["columns"]["g"]["bbox"][0].is_null());
    assert!(value["columns"]["g"]["bbox"][2].is_null());
    assert_eq!(value["columns"]["g"]["bbox"][3], 2.0);
}
