use duck_geocoder::mesh::{bounds, polygon, GridBounds, MeshError, LATITUDE_UNITS, LONGITUDE_UNITS};
use duck_geocoder::mesh_pop::{
    accumulate, aggregate, coarse_rows, columns_of, parse_csv, parse_zip, prefecture_code,
    total_population, Cells, MeshPopError, Row, COARSE_DIGITS,
};
use duck_geocoder::number::Real;
use std::io::Write;
use std::path::Path;

const TOKYO_STATION: (f64, f64) = (139.7671, 35.6812);

const EARTH_RADIUS_M: f64 = 6_371_008.8;

fn degrees(b: GridBounds) -> [f64; 4] {
    [
        b.west as f64 / LONGITUDE_UNITS as f64,
        b.south as f64 / LATITUDE_UNITS as f64,
        b.east as f64 / LONGITUDE_UNITS as f64,
        b.north as f64 / LATITUDE_UNITS as f64,
    ]
}

fn area_of(b: GridBounds) -> f64 {
    let [west, south, east, north] = degrees(b);
    let area_m2 = EARTH_RADIUS_M
        * EARTH_RADIUS_M
        * (east - west).to_radians()
        * (north.to_radians().sin() - south.to_radians().sin());
    area_m2 / 1_000_000.0
}

fn area_km2(code: &str) -> f64 {
    area_of(bounds(code).unwrap())
}

fn density_of(b: GridBounds, people: i32) -> Real {
    Real { bits: (people as f64 / area_of(b)).to_bits() }
}

fn contains(code: &str, (lon, lat): (f64, f64)) -> bool {
    let [west, south, east, north] = degrees(bounds(code).unwrap());
    (west..east).contains(&lon) && (south..north).contains(&lat)
}

#[test]
fn third_level_mesh_contains_tokyo_station() {
    assert!(contains("53394611", TOKYO_STATION));
}

#[test]
fn half_mesh_quadrant_numbering_is_southwest_first() {
    assert!(contains("533946113", TOKYO_STATION));
    for code in ["533946111", "533946112", "533946114"] {
        assert!(!contains(code, TOKYO_STATION), "{code} に入ってしまった");
    }
}

#[test]
fn first_level_mesh_matches_the_definition() {
    let [west, south, east, north] = degrees(bounds("5339").unwrap());
    assert!((west - 139.0).abs() < 1e-9, "{west}");
    assert!((east - 140.0).abs() < 1e-9, "{east}");
    assert!((south - 53.0 / 1.5).abs() < 1e-9, "{south}");
    assert!((north - 36.0).abs() < 1e-9, "{north}");
}

#[test]
fn neighbouring_meshes_share_an_edge() {
    let [_, _, east, north] = degrees(bounds("53394611").unwrap());
    let [east_west, _, _, _] = degrees(bounds("53394612").unwrap());
    let [_, north_south, _, _] = degrees(bounds("53394621").unwrap());
    assert!((east - east_west).abs() < 1e-9, "{east} vs {east_west}");
    assert!(
        (north - north_south).abs() < 1e-9,
        "{north} vs {north_south}"
    );
}

#[test]
fn each_split_quarters_the_area() {
    let third = area_km2("53394611");
    let half = area_km2("533946113");
    let quarter = area_km2("5339461131");
    assert!((third / half - 4.0).abs() < 0.01, "{third} / {half}");
    assert!((half / quarter - 4.0).abs() < 0.01, "{half} / {quarter}");
}

#[test]
fn third_level_mesh_is_about_one_square_kilometre() {
    let area = area_km2("53394611");
    assert!((0.9..1.1).contains(&area), "{area} km²");
}

#[test]
fn area_shrinks_towards_the_north() {
    let okinawa = area_km2("39272000");
    let hokkaido = area_km2("68412000");
    assert!(okinawa > hokkaido, "{okinawa} <= {hokkaido}");
    assert!(
        okinawa / hokkaido > 1.1,
        "差が小さすぎる: {okinawa} / {hokkaido}"
    );
}

#[test]
fn rejects_codes_we_do_not_understand() {
    assert!(bounds("533946").is_ok());
    assert!(bounds("5339461").is_err(), "7桁は定義が無い");
    assert!(bounds("533946115").is_err(), "区画番号5は無い");
    assert!(bounds("533984").is_err(), "2次メッシュの区画に8は無い");
    assert!(bounds("533949").is_err(), "2次メッシュの区画に9は無い");
    assert!(bounds("5339461a").is_err(), "数字以外");
}

#[test]
fn polygon_is_closed_and_matches_bounds() {
    let ring = polygon("53394611").unwrap();
    assert_eq!(ring.len(), 5, "閉じた矩形は5点");
    assert_eq!(ring.first(), ring.last());
    let b = bounds("53394611").unwrap();
    assert_eq!((ring[0].x, ring[0].y), (b.west, b.south));
    assert_eq!((ring[2].x, ring[2].y), (b.east, b.north));
}

#[test]
fn the_finest_square_has_one_unit() {
    let b = bounds("53394611311").unwrap();
    assert_eq!(b.east - b.west, 1);
    assert_eq!(b.north - b.south, 1);
    let parent = bounds("5339461131").unwrap();
    assert_eq!(parent.east - parent.west, 2);
    assert_eq!((parent.west, parent.south), (b.west, b.south));
}

const SAMPLE: &str = "\
KEY_CODE,HTKSYORI,HTKSAKI,GASSAN,T001231001,T001231034
,,,,　人口（総数）,　世帯総数
53394611311,0,,,320,150
53394611312,2,53394611311,,1,*
";

const SIBLINGS: &str = "\
KEY_CODE,HTKSYORI,HTKSAKI,GASSAN,T001231001,T001231034
,,,,　人口（総数）,　世帯総数
53394611111,0,,,100,40
53394611444,0,,,300,120
";

fn rows_of(csv: &str) -> Vec<Row> {
    parse_csv(csv, density_of).unwrap()
}

fn density(row: &Row) -> f64 {
    f64::from_bits(row.density.unwrap().bits)
}

#[test]
fn reads_population_and_households() {
    let rows = rows_of(SAMPLE);
    assert_eq!(rows.len(), 2);
    assert_eq!(rows[0].mesh_code, "53394611311");
    assert_eq!(rows[0].population, Some(320));
    assert_eq!(rows[0].households, Some(150));
}

#[test]
fn treats_suppressed_values_as_missing() {
    let rows = rows_of(SAMPLE);
    assert_eq!(rows[1].population, Some(1));
    assert_eq!(rows[1].households, None);
}

#[test]
fn density_uses_the_area_of_that_mesh() {
    let rows = rows_of(SAMPLE);
    let area = area_km2("53394611311");
    let expected = 320.0 / area;
    let density = density(&rows[0]);
    assert!((density - expected).abs() < 1e-9, "{density} vs {expected}");
    assert!((15_000.0..30_000.0).contains(&density), "{density}");
}

#[test]
fn reports_available_columns_when_the_name_is_missing() {
    let csv = "KEY_CODE,T001231001\n,　男女別人口\n53394611311,320\n";
    let err = parse_csv(csv, density_of).unwrap_err();
    let message = err.to_string();
    assert!(message.contains("人口（総数）"), "{message}");
    assert!(message.contains("男女別人口"), "{message}");
}

#[test]
fn rejects_a_file_that_is_not_mesh_statistics() {
    let err = parse_csv("KEY,VALUE\n,\n1,2\n", density_of).unwrap_err();
    assert!(err.to_string().contains("KEY_CODE"), "{err:?}");
}

#[test]
fn a_message_shows_the_first_column_of_another_file() {
    let err = parse_csv("KEY,VALUE\n,\n1,2\n", density_of).unwrap_err();
    assert_eq!(
        err.to_string(),
        "1列目が KEY_CODE ではありません: Some(\"KEY\") \
         (統計データではなく境界データを落としていませんか)"
    );
}

#[test]
fn sums_population_and_households() {
    let rows = rows_of(SIBLINGS);
    let mut cells = Cells::new();
    accumulate(&mut cells, &rows, 8);
    let aggregated = aggregate(&cells).unwrap();

    assert_eq!(aggregated.len(), 1);
    assert_eq!(aggregated[0].mesh_code, "53394611");
    assert_eq!(aggregated[0].population, Some(400));
    assert_eq!(aggregated[0].households, Some(160));
}

#[test]
fn keeps_the_highest_density_when_aggregating() {
    let rows = rows_of(SIBLINGS);
    let highest = rows.iter().map(density).fold(f64::MIN, f64::max);

    let mut cells = Cells::new();
    accumulate(&mut cells, &rows, 8);
    let aggregated = aggregate(&cells).unwrap();

    let density = density(&aggregated[0]);
    assert!((density - highest).abs() < 1e-9, "{density} vs {highest}");
    assert!(density > 10_000.0, "{density}");
}

#[test]
fn accumulates_across_files() {
    let mut cells = Cells::new();
    for csv in [SIBLINGS, SIBLINGS] {
        accumulate(&mut cells, &rows_of(csv), 8);
    }
    let aggregated = aggregate(&cells).unwrap();
    assert_eq!(aggregated.len(), 1);
    assert_eq!(aggregated[0].population, Some(800));
}

#[test]
fn files_add_up_in_any_order() {
    let other = "KEY_CODE,a,b\n,人口（総数）,世帯総数\n53394621111,5,1\n53394611111,7,2\n";
    let sums = |files: &[&str]| {
        let mut cells = Cells::new();
        for csv in files {
            accumulate(&mut cells, &rows_of(csv), 8);
        }
        aggregate(&cells).unwrap()
    };
    let mut together = rows_of(SIBLINGS);
    together.extend(rows_of(other));
    let mut cells = Cells::new();
    accumulate(&mut cells, &together, 8);
    assert_eq!(sums(&[SIBLINGS, other]), aggregate(&cells).unwrap());
    assert_eq!(sums(&[SIBLINGS, other]), sums(&[other, SIBLINGS]));
}

#[test]
fn codes_are_cut_by_bytes() {
    let mut rows = rows_of(SIBLINGS);
    rows.truncate(1);
    rows[0].mesh_code = "あ1".to_string();
    let mut cells = Cells::new();
    accumulate(&mut cells, &rows, 3);
    let err = aggregate(&cells).unwrap_err();
    assert_eq!(err, MeshPopError::BadCode("あ".to_string(), MeshError::NotDigits));
    assert_eq!(
        err.to_string(),
        "メッシュコードを解釈できません: あ: メッシュコードに数字以外が入っています: \"あ\""
    );
}

#[test]
fn aggregated_geometry_is_the_parent_mesh() {
    let rows = rows_of(SIBLINGS);
    let mut cells = Cells::new();
    accumulate(&mut cells, &rows, 8);
    let aggregated = aggregate(&cells).unwrap();

    let parent = area_km2("53394611");
    let child = area_km2("53394611111");
    assert!((parent / child - 64.0).abs() < 0.1, "{parent} / {child}");
    assert_eq!(aggregated[0].geometry.len(), 5, "閉じた矩形は5点");
    assert_eq!(aggregated[0].geometry, polygon("53394611").unwrap());
}

#[test]
fn coarse_squares_come_in_the_order_of_their_codes() {
    let csv = "KEY_CODE,a,b\n,人口（総数）,世帯総数\n53394621111,5,1\n53394611111,7,2\n";
    let mut cells = Cells::new();
    accumulate(&mut cells, &rows_of(csv), COARSE_DIGITS);
    let rows = coarse_rows(&cells, 12).unwrap();
    let codes: Vec<&str> = rows.iter().map(|r| r.mesh_code.as_str()).collect();
    assert_eq!(codes, vec!["53394611", "53394621"]);
    assert_eq!(total_population(&rows), 12);
    let changed = coarse_rows(&cells, 13).unwrap_err();
    assert_eq!(changed, MeshPopError::PeopleChanged(13, 12));
    assert_eq!(changed.to_string(), "1kmに束ねたら人口が変わりました: 13 → 12");
}

#[test]
fn a_code_that_cannot_be_read_is_an_error() {
    let csv = "KEY_CODE,a,b\n,人口（総数）,世帯総数\n5339461,5,1\n";
    let err = parse_csv(csv, density_of).unwrap_err();
    assert!(matches!(err, MeshPopError::BadCode(ref code, MeshError::Length) if code == "5339461"), "{err:?}");
    assert_eq!(
        err.to_string(),
        "メッシュコードを解釈できません: 5339461: \
         メッシュコードの桁数が 4/6/8/9/10/11 のいずれでもありません: \"5339461\" (7桁)"
    );
}

#[test]
fn statistics_need_their_lines() {
    assert_eq!(parse_csv("", density_of).unwrap_err(), MeshPopError::NoCodes);
    assert_eq!(parse_csv("KEY_CODE,a\n", density_of).unwrap_err(), MeshPopError::NoNames);
    assert_eq!(
        parse_csv("KEY_CODE,a,b\n,人口（総数）,世帯総数\n", density_of).unwrap_err(),
        MeshPopError::NoRows
    );
}

#[test]
fn reads_statistics_from_an_archive() {
    let mut zip = zip::ZipWriter::new(std::io::Cursor::new(Vec::new()));
    zip.start_file("tblT001231E13.txt", zip::write::SimpleFileOptions::default())
        .unwrap();
    zip.write_all(&encoding_rs::SHIFT_JIS.encode(SAMPLE).0).unwrap();
    let bytes = zip.finish().unwrap().into_inner();
    let rows = parse_zip(&bytes, density_of).unwrap();
    assert_eq!(rows.len(), 2);
    assert_eq!(total_population(&rows), 321);
}

#[test]
fn squares_have_four_columns() {
    let columns = columns_of(&rows_of(SAMPLE));
    let names: Vec<&str> = columns.iter().map(|c| c.name.as_str()).collect();
    assert_eq!(names, vec!["mesh_code", "population", "households", "density"]);
}

fn stem(path: &str) -> &str {
    Path::new(path).file_stem().unwrap().to_str().unwrap()
}

#[test]
fn reads_the_prefecture_code_from_the_distributed_name() {
    let code = prefecture_code(stem("../data/estat/mesh/tblT001231E13.zip")).unwrap();
    assert_eq!(code, "13");
    assert_eq!(
        prefecture_code(stem("tblT001231E01.zip")).unwrap(),
        "01"
    );
}

#[test]
fn rejects_names_it_cannot_read() {
    assert!(prefecture_code(stem("tokyo.zip")).is_none());
    assert!(prefecture_code(stem("tblT001231E1.zip")).is_none());
}
