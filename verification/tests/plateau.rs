use duck_geocoder::codelists::{look_up, Codelists, Dictionaries, Dictionary, Lookup};
use duck_geocoder::geo::{Coord, Polygon};
use duck_geocoder::geoparquet::ColumnData;
use duck_geocoder::number::Real;
use duck_geocoder::plateau::{
    bounds_of_rows, build_row, columns_of, element_at, is_buildings, known_height, known_storeys,
    multi_polygon_bbox, ArchiveError, ArchiveReader, Building, BuildingId, Element, GeometryKind,
    GeometryRef, GeometryStore, IndexedPolygon, Step, Vertex, UNKNOWN_HEIGHT_BITS,
    UNKNOWN_SENTINEL,
};

fn num(x: f64) -> Real {
    Real { bits: x.to_bits() }
}

fn coord(x: f64, y: f64) -> Coord {
    Coord { x: num(x), y: num(y) }
}

#[test]
fn bbox_covers_all_rings() {
    let mp = vec![Polygon {
        exterior: vec![
            coord(139.0, 35.0),
            coord(139.1, 35.0),
            coord(139.1, 35.2),
            coord(139.0, 35.0),
        ],
        interiors: vec![],
    }];
    let b = multi_polygon_bbox(&mp);
    assert_eq!(
        [b.xmin, b.ymin, b.xmax, b.ymax].map(|r| f64::from_bits(r.bits)),
        [139.0, 35.0, 139.1, 35.2]
    );
}

#[test]
fn unknown_sentinels_are_dropped() {
    let keep_storeys = |s: u64| known_storeys(s);
    assert_eq!(keep_storeys(3), Some(3));
    assert_eq!(keep_storeys(UNKNOWN_SENTINEL), None);

    let keep_height = |h: f64| known_height(num(h)).map(|r| f64::from_bits(r.bits));
    assert_eq!(keep_height(9.8), Some(9.8));
    assert_eq!(keep_height(f64::from_bits(UNKNOWN_HEIGHT_BITS)), None);
    assert_eq!(f64::from_bits(UNKNOWN_HEIGHT_BITS), -9999.0);
}

fn vertex(lat: f64, lon: f64) -> Vertex {
    Vertex { lat: num(lat), lon: num(lon), elevation: num(0.0) }
}

fn building() -> Building {
    Building {
        geometries: vec![
            GeometryRef { lod: 1, kind: GeometryKind::Other, pos: 0, len: 1 },
            GeometryRef { lod: 0, kind: GeometryKind::Surface, pos: 1, len: 1 },
        ],
        store: GeometryStore {
            vertices: vec![vertex(35.0, 139.0), vertex(35.0, 139.5), vertex(35.5, 139.5)],
            polygons: vec![
                IndexedPolygon { exterior: vec![9, 9], interiors: vec![] },
                IndexedPolygon { exterior: vec![0, 1, 2, 0], interiors: vec![vec![0, 2, 0]] },
            ],
        },
        ids: vec![BuildingId {
            building_id: Some("13103-bldg-1".to_string()),
            city: Some("港区".to_string()),
        }],
        names: vec![],
        usages: vec!["業務施設".to_string(), "住宅".to_string()],
        class: Some("普通建物".to_string()),
        measured_height: Some(num(12.5)),
        storeys_above_ground: Some(3),
    }
}

#[test]
fn a_building_becomes_a_row() {
    let b = building();
    assert!(b.is_valid());
    let row = build_row(&b).unwrap();
    assert_eq!(row.building_id.as_deref(), Some("13103-bldg-1"));
    assert_eq!(row.name, None);
    assert_eq!(row.usage.as_deref(), Some("業務施設"));
    assert_eq!(row.class.as_deref(), Some("普通建物"));
    assert_eq!(row.height, Some(num(12.5)));
    assert_eq!(row.storeys, Some(3));
    assert_eq!(row.city.as_deref(), Some("港区"));
    assert_eq!(row.geometry.len(), 1);
    assert_eq!(
        row.geometry[0].exterior,
        vec![coord(139.0, 35.0), coord(139.5, 35.0), coord(139.5, 35.5), coord(139.0, 35.0)]
    );
    assert_eq!(row.geometry[0].interiors[0][1], coord(139.5, 35.5));
}

#[test]
fn a_building_without_an_outline_is_left_out() {
    let mut b = building();
    b.geometries.pop();
    assert!(b.is_valid());
    assert_eq!(build_row(&b), None);

    let mut b = building();
    b.geometries[1].len = 0;
    assert_eq!(build_row(&b), None);
}

#[test]
fn unknown_numbers_do_not_reach_a_row() {
    let mut b = building();
    b.measured_height = Some(num(-9999.0));
    b.storeys_above_ground = Some(9999);
    let row = build_row(&b).unwrap();
    assert_eq!(row.height, None);
    assert_eq!(row.storeys, None);
    b.storeys_above_ground = Some(1 << 40);
    assert_eq!(build_row(&b).unwrap().storeys, None);
}

#[test]
fn an_outline_has_to_name_vertices_that_are_there() {
    let mut b = building();
    b.geometries[1].pos = 0;
    assert!(!b.is_valid());
    b.geometries[1].pos = 2;
    assert!(!b.is_valid());
    b.geometries[1].pos = u32::MAX;
    assert!(!b.is_valid());
}

fn texts(list: &[&str]) -> Vec<String> {
    list.iter().map(|s| s.to_string()).collect()
}

#[test]
fn an_archive_is_read_entry_by_entry() {
    let names = texts(&[
        "udx/bldg/b.gml",
        "codelists/Building_usage.xml",
        "udx/dem/x.gml",
        "udx/bldg/a.gml",
        "udx/bldg/a_appearance/1.jpg",
    ]);
    let mut reader = ArchiveReader::new(&names).unwrap();
    assert_eq!(
        reader.next().unwrap(),
        Step::Codelist("codelists/Building_usage.xml".to_string())
    );
    reader.take_codelist(b"<list/>".to_vec());
    let lists = reader.codelists();
    assert_eq!(lists.len(), 1);
    assert_eq!(lists.content("Building_usage.xml").unwrap(), b"<list/>");
    assert_eq!(reader.next().unwrap(), Step::Buildings("udx/bldg/a.gml".to_string()));
    reader.take_buildings(&vec![building()]);
    assert_eq!(reader.next().unwrap(), Step::Buildings("udx/bldg/b.gml".to_string()));
    reader.take_buildings(&vec![]);
    assert_eq!(reader.next().unwrap(), Step::Done);
    let rows = reader.into_rows();
    assert_eq!(rows.len(), 1);
    let b = bounds_of_rows(&rows);
    assert_eq!(f64::from_bits(b.xmax.bits), 139.5);
    assert_eq!(f64::from_bits(b.ymin.bits), 35.0);
}

#[test]
fn an_archive_can_lack_what_is_needed() {
    assert_eq!(
        ArchiveReader::new(&texts(&["codelists/a.xml"])).err(),
        Some(ArchiveError::NoBuildings)
    );
    let reader = ArchiveReader::new(&texts(&["udx/bldg/a.gml"])).unwrap();
    assert_eq!(reader.next().unwrap_err(), ArchiveError::NoCodelists);
    let mut reader = ArchiveReader::new(&texts(&["udx/bldg/a.gml", "codelists/a.xml"])).unwrap();
    reader.take_codelist(vec![]);
    reader.take_buildings(&vec![]);
    let err = reader.next().unwrap_err();
    assert_eq!(err, ArchiveError::NoRows);
    assert_eq!(err.to_text("x.zip"), "建物が1件も読めませんでした: x.zip");
}

#[test]
fn knows_the_entries_with_buildings() {
    assert!(is_buildings("udx/bldg/53393680_bldg_6697_op.gml"));
    assert!(!is_buildings("udx/bldg/x.jpg"));
    assert!(!is_buildings("codelists/Building_usage.xml"));
}

#[test]
fn buildings_have_seven_columns() {
    let rows = vec![build_row(&building()).unwrap()];
    let columns = columns_of(&rows);
    let names: Vec<&str> = columns.iter().map(|c| c.name.as_str()).collect();
    assert_eq!(
        names,
        vec!["building_id", "name", "usage", "class", "city", "height", "storeys"]
    );
    assert_eq!(columns[6].data, ColumnData::I32Nullable(vec![Some(3)]));
}

#[test]
fn code_lists_are_found_by_the_name_of_their_file() {
    let lists = Codelists::new(vec![
        ("codelists/a.xml".to_string(), vec![1]),
        ("codelists/".to_string(), vec![2]),
        ("other/a.xml".to_string(), vec![3]),
        ("b.xml".to_string(), vec![4]),
    ]);
    assert_eq!(lists.len(), 2);
    assert!(!lists.is_empty());
    assert_eq!(lists.content("a.xml").unwrap(), &vec![3]);
    assert_eq!(lists.content("c.xml"), None);
    assert!(Codelists::new(vec![]).is_empty());
}

#[test]
fn a_code_space_is_read_relative_to_its_file() {
    let base = Codelists::source_uri("udx/bldg/x.gml").unwrap();
    assert_eq!(base, "https://plateau.invalid/zip/udx/bldg/x.gml");
    let lists = Codelists::new(vec![("codelists/Building_usage.xml".to_string(), vec![])]);
    let mut known = Dictionaries::new();
    let space = "../../codelists/Building_usage.xml";
    assert_eq!(
        look_up(&lists, &known, &base, space, "401").unwrap(),
        Lookup::ToRead("Building_usage.xml".to_string())
    );
    known.learn(
        "Building_usage.xml".to_string(),
        Dictionary { codes: texts(&["401", "402"]), meanings: texts(&["業務施設", "商業施設"]) },
    );
    assert_eq!(
        look_up(&lists, &known, &base, space, "401").unwrap(),
        Lookup::Known(Some("業務施設".to_string()))
    );
    assert_eq!(look_up(&lists, &known, &base, space, "9").unwrap(), Lookup::Known(None));
    assert_eq!(
        look_up(&lists, &known, &base, "../../codelists/none.xml", "401").unwrap(),
        Lookup::Known(None)
    );
    assert_eq!(look_up(&lists, &known, &base, "../", "401").unwrap(), Lookup::Known(None));
}

#[test]
fn a_code_space_can_lead_nowhere() {
    let lists = Codelists::new(vec![]);
    let known = Dictionaries::new();
    let err = look_up(&lists, &known, "no address", "a.xml", "1").unwrap_err();
    assert_eq!(err.to_string(), "codeSpaceを解決できません a.xml: relative URL without a base");
    let err = Codelists::source_uri("https://[").unwrap_err();
    assert_eq!(err.to_string(), "URLを組み立てられません: https://[: invalid IPv6 address");
}

#[test]
fn only_members_extents_and_textures_stand_at_the_top() {
    assert_eq!(element_at("core:cityObjectMember"), Ok(Element::Member));
    assert_eq!(element_at("gml:boundedBy"), Ok(Element::Ignored));
    assert_eq!(element_at("app:appearanceMember"), Ok(Element::Ignored));
    let err = element_at("gml:name").unwrap_err();
    assert_eq!(err.to_string(), "想定外の要素: gml:name");
}
