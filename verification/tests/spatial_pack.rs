use duck_geocoder::catalog::KeyValue;
use duck_geocoder::geoparquet::GeoError;
use duck_geocoder::number::Real;
use duck_geocoder::optimize::{
    find_covering, kept_entries, parse_row_group_size, row_group_size, row_groups, OptimizeError,
};
use duck_geocoder::spatial_pack::{
    default_row_group_size, extent_of, pack, Bbox, Coordinate, PackError, MAX_ROW_GROUPS,
    MAX_ROW_GROUP_SIZE, TARGET_ROW_GROUP_BYTES,
};

fn point(x: i64, y: i64) -> Bbox {
    Bbox {
        xmin: at(x as f64),
        ymin: at(y as f64),
        xmax: at(x as f64),
        ymax: at(y as f64),
    }
}

fn at(x: f64) -> Coordinate {
    Coordinate { value: Real { bits: x.to_bits() }, units: x as i64 }
}

fn grid() -> Vec<Bbox> {
    (0..10)
        .flat_map(|x| (0..10).map(move |y| point(x, y)))
        .collect()
}

fn row_group_extents(order: &[u32], bboxes: &[Bbox], row_group_size: usize) -> Vec<Bbox> {
    order
        .chunks(row_group_size)
        .map(|chunk| extent_of(chunk, bboxes))
        .collect()
}

#[test]
fn derives_row_group_size_from_bytes_per_row() {
    let datasets = [
        ("行政区域 Overture (全国)", 78_700_000u64, 1_741usize),
        ("行政区域 N03 (全国)", 259_927_901, 125_130),
        ("街区 (神奈川県)", 24_718_663, 571_233),
        ("建物 (港区)", 3_213_930, 24_345),
    ];

    for (name, file_bytes, num_rows) in datasets {
        let size = default_row_group_size(file_bytes, num_rows);
        let row_group_bytes = size as u64 * file_bytes / num_rows as u64;
        assert!(
            (TARGET_ROW_GROUP_BYTES as u64 / 2..=TARGET_ROW_GROUP_BYTES as u64)
                .contains(&row_group_bytes),
            "{name}: row group が {row_group_bytes} バイト ({size} 行)",
        );
    }
}

#[test]
fn heavier_rows_get_fewer_rows_per_row_group() {
    let admin = default_row_group_size(259_927_901, 125_130);
    let block = default_row_group_size(24_718_663, 571_233);
    assert!(admin < block, "行政区域 {admin} 行 < 街区 {block} 行");
}

#[test]
fn keeps_row_groups_large_enough_when_rows_are_tiny() {
    assert_eq!(default_row_group_size(1_000, 1_000_000), MAX_ROW_GROUP_SIZE);
}

#[test]
fn caps_the_number_of_row_groups() {
    let size = default_row_group_size(10_000_000_000_000, 1_000_000);
    assert_eq!(1_000_000usize.div_ceil(size), MAX_ROW_GROUPS);
}

#[test]
fn handles_empty_file() {
    assert_eq!(default_row_group_size(0, 0), 1);
}

#[test]
fn returns_a_permutation_of_all_rows() {
    let bboxes = grid();
    let mut order = pack(&bboxes, 25).unwrap();
    order.sort_unstable();
    assert_eq!(order, (0..100u32).collect::<Vec<_>>());
}

#[test]
fn packs_a_grid_into_compact_row_groups() {
    let bboxes = grid();
    let order = pack(&bboxes, 25).unwrap();

    let extents = row_group_extents(&order, &bboxes, 25);
    assert_eq!(extents.len(), 4);
    for extent in extents {
        assert!(extent.width() <= 4, "row group が横に広すぎる: {extent:?}");
        assert!(extent.height() <= 4, "row group が縦に広すぎる: {extent:?}");
    }
}

#[test]
fn unpacked_order_is_not_already_compact() {
    let bboxes = grid();
    let identity: Vec<u32> = (0..100u32).collect();

    let extents = row_group_extents(&identity, &bboxes, 25);
    assert!(extents.iter().any(|e| e.height() > 4));
}

#[test]
fn keeps_order_when_everything_fits_in_one_row_group() {
    let bboxes = grid();
    let order = pack(&bboxes, 100).unwrap();
    assert_eq!(order, (0..100u32).collect::<Vec<_>>());
}

#[test]
fn splits_on_the_longer_axis() {
    let bboxes: Vec<Bbox> = (0..40).map(|x| point(x, 0)).collect();
    let order = pack(&bboxes, 10).unwrap();

    let extents = row_group_extents(&order, &bboxes, 10);
    assert_eq!(extents.len(), 4);
    for extent in extents {
        assert!(extent.width() <= 9, "x で切られていない: {extent:?}");
    }
}

#[test]
fn handles_empty_input() {
    assert!(pack(&[], 10).unwrap().is_empty());
}

#[test]
fn rejects_zero_row_group_size() {
    assert!(pack(&grid(), 0).is_err());
    assert_eq!(pack(&grid(), 0).unwrap_err(), PackError::ZeroRowGroupSize);
}

#[test]
fn rejects_non_finite_bbox() {
    let bboxes = vec![
        point(0, 0),
        Bbox { xmin: at(f64::NAN), ymin: at(1.0), xmax: at(f64::NAN), ymax: at(1.0) },
    ];
    let err = pack(&bboxes, 1).unwrap_err();
    assert!(err.to_string().contains("row 1"));
    assert_eq!(
        err.to_string(),
        "row 1 has a non-finite bbox: Bbox { xmin: NaN, ymin: 1.0, xmax: NaN, ymax: 1.0 }"
    );
    assert_eq!(err, PackError::NonFinite(1, bboxes[1]));
}

#[test]
fn row_groups_follow_each_other() {
    assert_eq!(row_groups(10, 4), vec![(0, 4), (4, 4), (8, 2)]);
    assert_eq!(row_groups(8, 4), vec![(0, 4), (4, 4)]);
    assert_eq!(row_groups(3, 4), vec![(0, 3)]);
    assert!(row_groups(0, 4).is_empty());
}

#[test]
fn the_size_that_was_asked_for_counts() {
    assert_eq!(row_group_size(Some(5), 1_000, 1_000_000), 5);
    assert_eq!(row_group_size(None, 1_000, 1_000_000), MAX_ROW_GROUP_SIZE);
    assert_eq!(parse_row_group_size("4096"), Some(4096));
    assert_eq!(parse_row_group_size("-1"), None);
    assert_eq!(parse_row_group_size("99999999999999999999"), None);
}

fn entry(key: &str, value: Option<&str>) -> KeyValue {
    KeyValue { key: key.to_string(), value: value.map(str::to_string) }
}

#[test]
fn metadata_is_carried_over_but_for_the_schema() {
    let metadata = vec![
        entry("geo", Some("{}")),
        entry("ARROW:schema", Some("x")),
        entry("duck:via", Some("y")),
    ];
    assert_eq!(kept_entries(&metadata), vec![0, 2]);
}

#[test]
fn only_a_file_with_a_covering_can_be_rewritten() {
    assert_eq!(find_covering(&vec![]).unwrap_err(), OptimizeError::NoGeo);
    assert_eq!(
        find_covering(&vec![entry("geo", None)]).unwrap_err(),
        OptimizeError::NoGeo
    );
    let bare = find_covering(&vec![entry("geo", Some("{}"))]).unwrap_err();
    assert_eq!(bare, OptimizeError::Covering(GeoError::NoPrimaryColumn));
    assert!(bare.to_string().contains("primary_column"));
}

#[test]
fn cuts_fall_between_row_groups() {
    // Along x, from right to left: three row groups, the last with one row.
    let bboxes: Vec<Bbox> = (0..5).map(|i| point(10 - i, 0)).collect();
    let order = pack(&bboxes, 2).unwrap();
    let group = |k: usize| {
        let mut rows: Vec<u32> = order.chunks(2).nth(k).unwrap().to_vec();
        rows.sort();
        rows
    };
    assert_eq!(group(0), [3, 4]);
    assert_eq!(group(1), [1, 2]);
    assert_eq!(group(2), [0]);
}
