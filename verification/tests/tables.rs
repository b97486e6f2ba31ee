use duck_geocoder::geo::{Coord, Polygon};
use duck_geocoder::geoparquet::{ColumnData, Table, VIA_KEY, VINTAGE_KEY};
use duck_geocoder::mesh::{polygon, GridPoint, LATITUDE_UNITS, LONGITUDE_UNITS};
use duck_geocoder::n02::StationTableError;
use duck_geocoder::number::Real;
use duck_geocoder::transform::{crs_name, transform_line, transform_polygons, TransformError};
use duck_geocoder::{catalog, isj_block, isj_oaza, mesh_pop, n02, n03, plateau};

fn num(x: f64) -> Real {
    Real { bits: x.to_bits() }
}

fn coord(x: f64, y: f64) -> Coord {
    Coord { x: num(x), y: num(y) }
}

/// Moves every point one degree to the east.
fn shift(line: &Vec<Coord>) -> Option<Vec<Coord>> {
    Some(line.iter().map(|c| coord(f64::from_bits(c.x.bits) + 1.0, f64::from_bits(c.y.bits))).collect())
}

fn refuse(_line: &Vec<Coord>) -> Option<Vec<Coord>> {
    None
}

/// Loses the last point.
fn shorten(line: &Vec<Coord>) -> Option<Vec<Coord>> {
    let mut out = line.to_vec();
    out.pop();
    Some(out)
}

fn value<'a>(t: &'a Table, key: &str) -> Option<&'a str> {
    t.metadata.iter().find(|(k, _)| k == key).map(|(_, v)| v.as_str())
}

fn names(t: &Table) -> Vec<&str> {
    t.columns.iter().map(|c| c.name.as_str()).collect()
}

fn facts(t: &Table) -> (Vec<String>, Option<[f64; 4]>) {
    let (types, bounds) = catalog::read_geo_metadata(value(t, "geo").unwrap()).unwrap();
    let sides = bounds.map(|b| {
        [b.xmin, b.ymin, b.xmax, b.ymax].map(|side| f64::from_bits(side.bits))
    });
    (types, sides)
}

const RAILWAY: &str = r#"{ "type": "FeatureCollection",
  "crs": { "type": "name", "properties": { "name": "urn:ogc:def:crs:EPSG::6668" } },
  "features": [ { "type": "Feature",
    "properties": { "N02_001": "11", "N02_002": "2", "N02_003": "指宿枕崎線", "N02_004": "九州旅客鉄道", "N02_005": "二月田" },
    "geometry": { "type": "LineString", "coordinates": [ [ 130.5, 31.25 ], [ 130.75, 31.5 ] ] } } ] }"#;

const AREA: &str = r#"{ "type": "FeatureCollection",
  "crs": { "type": "name", "properties": { "name": "urn:ogc:def:crs:EPSG::6668" } },
  "features": [ { "type": "Feature",
    "properties": { "N03_001": "神奈川県", "N03_004": "横浜市", "N03_007": "14101" },
    "geometry": { "type": "Polygon", "coordinates": [ [ [ 139.0, 35.0 ], [ 139.5, 35.0 ], [ 139.5, 35.5 ], [ 139.0, 35.0 ] ] ] } } ] }"#;

const BLOCK: &str = "\"都道府県名\",\"市区町村名\",\"大字・丁目名\",\"小字・通称名\",\"街区符号・地番\",\"座標系番号\",\"Ｘ座標\",\"Ｙ座標\",\"緯度\",\"経度\",\"住居表示フラグ\",\"代表フラグ\",\"更新前履歴フラグ\",\"更新後履歴フラグ\"\n\"神奈川県\",\"横浜市鶴見区\",\"上の宮二丁目\",\"\",\"6\",\"9\",\"-53821.1\",\"-17911.6\",\"35.5\",\"139.625\",\"1\",\"1\",\"0\",\"0\"\n";

const TOWN: &str = "\"都道府県コード\",\"都道府県名\",\"市区町村コード\",\"市区町村名\",\"大字町丁目コード\",\"大字町丁目名\",\"緯度\",\"経度\",\"原典資料コード\",\"大字・字・丁目区分コード\"\n\"14\",\"神奈川県\",\"14101\",\"横浜市鶴見区\",\"141010001001\",\"本町通一丁目\",\"35.5\",\"139.625\",\"0\",\"3\"\n";

#[test]
fn reference_systems_go_by_their_number() {
    assert_eq!(crs_name(4612), "EPSG:4612");
    assert_eq!(crs_name(0), "EPSG:0");
}

#[test]
fn lines_are_moved_point_by_point() {
    let line = vec![coord(1.0, 2.0), coord(3.0, 4.0)];
    assert_eq!(transform_line(&line, &shift), Ok(vec![coord(2.0, 2.0), coord(4.0, 4.0)]));
    assert_eq!(transform_line(&line, &refuse), Err(TransformError));
    assert_eq!(transform_line(&line, &shorten), Err(TransformError));
    assert_eq!(TransformError.to_string(), "WGS84への変換に失敗しました");
}

#[test]
fn moved_rings_stay_closed() {
    let ring = vec![coord(0.0, 0.0), coord(1.0, 0.0), coord(1.0, 1.0), coord(0.0, 0.0)];
    let hole = vec![coord(0.5, 0.25), coord(0.75, 0.5), coord(0.5, 0.25)];
    let given = vec![Polygon { exterior: ring, interiors: vec![hole] }];
    let moved = transform_polygons(&given, &shift).unwrap();
    assert_eq!(
        moved[0].exterior,
        vec![coord(1.0, 0.0), coord(2.0, 0.0), coord(2.0, 1.0), coord(1.0, 0.0)]
    );
    assert_eq!(
        moved[0].interiors[0],
        vec![coord(1.5, 0.25), coord(1.75, 0.5), coord(1.5, 0.25)]
    );
    assert!(transform_polygons(&given, &refuse).is_err());
}

#[test]
fn stations_go_into_a_file_with_their_vintage() {
    let rows = n02::parse_geojson(RAILWAY).unwrap().to_wgs84(shift).unwrap();
    assert_eq!(rows[0].geometry, vec![coord(131.5, 31.25), coord(131.75, 31.5)]);
    let t = n02::station_table(&rows, Some("N02-25".to_string())).unwrap();
    assert_eq!(
        names(&t),
        [
            "railway_class",
            "railway_class_code",
            "institution_type",
            "institution_type_code",
            "line_name",
            "operator",
            "station_name",
            "station_code",
            "station_group_code",
        ]
    );
    assert_eq!(value(&t, VINTAGE_KEY), Some("N02-25"));
    assert_eq!(value(&t, VIA_KEY), None);
    assert_eq!(facts(&t), (vec!["LineString".to_string()], Some([131.5, 31.25, 131.75, 31.5])));
    assert_eq!(t.geometry.wkb.len(), 1);
    assert_eq!(t.geometry.wkb[0][..9], [1, 2, 0, 0, 0, 2, 0, 0, 0]);
    assert_eq!(t.geometry.wkb[0][9..17], 131.5f64.to_le_bytes());
    assert_eq!(t.geometry.xmax, vec![num(131.75)]);
}

#[test]
fn sections_go_into_a_file_of_six_columns() {
    let rows = n02::parse_geojson(RAILWAY).unwrap().to_wgs84(shift).unwrap();
    let t = n02::section_table(&rows, None).unwrap();
    assert_eq!(t.columns.len(), 6);
    assert_eq!(t.primary_column, "geometry");
    assert_eq!(value(&t, VINTAGE_KEY), None);
}

#[test]
fn sections_are_no_stations() {
    let nameless = RAILWAY.replace(", \"N02_005\": \"二月田\"", "");
    let rows = n02::parse_geojson(&nameless).unwrap().rows;
    assert!(matches!(
        n02::station_table(&rows, None),
        Err(StationTableError::Rows(n02::N02Error::NoStationName(0)))
    ));
}

#[test]
fn a_source_that_cannot_be_moved_is_an_error() {
    assert!(n02::parse_geojson(RAILWAY).unwrap().to_wgs84(refuse).is_err());
    assert!(n03::parse_geojson(AREA).unwrap().to_wgs84(refuse).is_err());
    assert!(isj_block::parse_csv(BLOCK, 4612).unwrap().to_wgs84(refuse).is_err());
    assert!(isj_oaza::parse_csv(TOWN, 4612).unwrap().to_wgs84(shorten).is_err());
}

#[test]
fn areas_go_into_a_file_of_multi_polygons() {
    let rows = n03::parse_geojson(AREA).unwrap().to_wgs84(shift).unwrap();
    let t = n03::table_of(&rows).unwrap();
    assert_eq!(facts(&t), (vec!["MultiPolygon".to_string()], Some([140.0, 35.0, 140.5, 35.5])));
    assert_eq!(t.geometry.wkb[0][..9], [1, 6, 0, 0, 0, 1, 0, 0, 0]);
    let pref = t.columns.iter().find(|c| c.name == "pref_name").unwrap();
    assert_eq!(pref.data, ColumnData::Utf8(vec!["神奈川県".to_string()]));
    let ward = t.columns.iter().find(|c| c.name == "ward_name").unwrap();
    assert_eq!(ward.data, ColumnData::Utf8Nullable(vec![None]));
}

#[test]
fn blocks_and_towns_go_into_files_of_points() {
    let blocks = isj_block::parse_csv(BLOCK, 4612).unwrap().to_wgs84(shift).unwrap();
    let t = isj_block::table_of(&blocks).unwrap();
    assert_eq!(facts(&t), (vec!["Point".to_string()], Some([140.625, 35.5, 140.625, 35.5])));
    assert_eq!(t.geometry.wkb[0].len(), 21);
    let towns = isj_oaza::parse_csv(TOWN, 4612).unwrap().to_wgs84(shift).unwrap();
    let t = isj_oaza::table_of(&towns).unwrap();
    assert_eq!(facts(&t), (vec!["Point".to_string()], Some([140.625, 35.5, 140.625, 35.5])));
    assert_eq!(t.metadata.len(), 1);
}

fn roof(name: &str) -> plateau::Row {
    plateau::Row {
        building_id: Some(name.to_string()),
        name: None,
        usage: None,
        class: None,
        height: Some(num(12.5)),
        storeys: Some(3),
        city: None,
        geometry: vec![Polygon {
            exterior: vec![coord(139.0, 35.0), coord(139.5, 35.0), coord(139.5, 35.5), coord(139.0, 35.0)],
            interiors: vec![],
        }],
    }
}

#[test]
fn buildings_go_into_a_file_with_their_source() {
    let mut rows = vec![roof("a"), roof("b")];
    plateau::to_wgs84(&mut rows, shift).unwrap();
    assert_eq!(rows[1].geometry[0].exterior[0], coord(140.0, 35.0));
    assert_eq!(rows[1].building_id.as_deref(), Some("b"));
    let t = plateau::table_of(&rows, Some("https://example.com/a.zip".to_string())).unwrap();
    assert_eq!(value(&t, VIA_KEY), Some("https://example.com/a.zip"));
    assert_eq!(facts(&t), (vec!["MultiPolygon".to_string()], Some([140.0, 35.0, 140.5, 35.5])));
    assert!(plateau::to_wgs84(&mut rows, refuse).is_err());
}

fn degrees(p: GridPoint) -> Coord {
    coord(p.x as f64 / LONGITUDE_UNITS as f64, p.y as f64 / LATITUDE_UNITS as f64)
}

#[test]
fn squares_go_into_a_file_of_polygons() {
    let rows = vec![mesh_pop::Row {
        mesh_code: "5339".to_string(),
        population: Some(7),
        households: None,
        density: None,
        geometry: polygon("5339").unwrap(),
    }];
    let t = mesh_pop::table_of(&rows, degrees).unwrap();
    assert_eq!(names(&t), ["mesh_code", "population", "households", "density"]);
    let (types, sides) = facts(&t);
    assert_eq!(types, ["Polygon"]);
    let sides = sides.unwrap();
    assert_eq!((sides[0], sides[2]), (139.0, 140.0));
    assert!((sides[1] - 53.0 / 1.5).abs() < 1e-9);
    assert!((sides[3] - 36.0).abs() < 1e-9);
    assert_eq!(t.geometry.wkb[0][..13], [1, 3, 0, 0, 0, 1, 0, 0, 0, 5, 0, 0, 0]);
}

#[test]
fn the_catalog_reads_what_a_table_says_of_its_source() {
    let t = plateau::table_of(&vec![roof("a")], Some("https://example.com/a.zip".to_string())).unwrap();
    let mut metadata = vec![catalog::KeyValue {
        key: "ARROW:schema".to_string(),
        value: Some("schema".to_string()),
    }];
    for (key, value) in t.metadata {
        metadata.push(catalog::KeyValue { key, value: Some(value) });
    }
    assert_eq!(
        catalog::key_value(&metadata, VIA_KEY).as_deref(),
        Some("https://example.com/a.zip")
    );
    assert_eq!(catalog::key_value(&metadata, VINTAGE_KEY), None);
    assert!(catalog::key_value(&metadata, "geo").unwrap().contains("MultiPolygon"));
}
