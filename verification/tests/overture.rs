use duck_geocoder::overture::{
    build_admin_sql, build_admin_stats_sql, build_clip_ocean_sql, build_divisions_extract_sql,
    build_extract_sql, build_ocean_extract_sql, build_road_routes_sql, build_roads_extract_sql,
    build_roads_sql, build_roads_stats_sql, geometry_types, japan_bbox, metadata_for, road_classes,
    BoundingBox, BoundingBoxError, Stats, MUNICIPALITY_FILTER, SLIVER_AREA,
};
use duck_geocoder::geo::Bounds;
use duck_geocoder::number::Real;


#[test]
fn parses_bbox() {
    let bbox = BoundingBox::parse("139.73", "35.63", "139.78", "35.68").unwrap();
    assert_eq!(f64::from_bits(bbox.xmin.bits), 139.73);
    assert_eq!(f64::from_bits(bbox.ymax.bits), 35.68);
}

#[test]
fn rejects_inverted_bbox() {
    assert!(BoundingBox::parse("139.78", "35.63", "139.73", "35.68").is_err());
}

#[test]
fn rejects_non_numeric_bbox() {
    assert!(BoundingBox::parse("east", "35.63", "139.78", "35.68").is_err());
}

#[test]
fn embeds_release_bbox_and_output_in_sql() {
    let bbox = BoundingBox::parse("139.73", "35.63", "139.78", "35.68").unwrap();
    let sql = build_extract_sql("2026-07-22.0", bbox, "/tmp/out.parquet");
    assert!(sql.contains("release/2026-07-22.0/theme=buildings"));
    assert!(sql.contains("bbox.xmin BETWEEN 139.73 AND 139.78"));
    assert!(sql.contains("bbox.ymin BETWEEN 35.63 AND 35.68"));
    assert!(sql.contains("TO '/tmp/out.parquet'"));
    assert!(sql.contains("    bbox,\n"));
}

#[test]
fn divisions_sql_filters_by_covering_bbox_and_country() {
    let sql = build_divisions_extract_sql("2026-07-22.0", "JP", japan_bbox(), "/tmp/div.parquet");

    assert!(sql.contains("theme=divisions/type=division_area"));
    assert!(sql.contains("bbox.xmin BETWEEN 122 AND 154"));
    assert!(sql.contains("bbox.ymin BETWEEN 20 AND 46"));
    assert!(sql.contains("country = 'JP'"));
    assert!(sql.contains("class = 'land'"));
    assert!(sql.contains("TO '/tmp/div.parquet'"));
}
#[test]
fn divisions_sql_filters_by_subtype_only_for_the_region_join() {
    let sql = build_divisions_extract_sql("2026-07-22.0", "JP", japan_bbox(), "/tmp/div.parquet");
    assert_eq!(sql.matches("subtype = ").count(), 1);
    assert!(sql.contains("subtype = 'region'"));
}

#[test]
fn ocean_sql_filters_by_covering_bbox_and_subtype() {
    let sql = build_ocean_extract_sql("2026-07-22.0", japan_bbox(), "/tmp/ocean.parquet");

    assert!(sql.contains("theme=base/type=water"));
    assert!(sql.contains("subtype = 'ocean'"));
    assert!(sql.contains("bbox.xmin BETWEEN 122 AND 154"));
    assert!(sql.contains("bbox.ymin BETWEEN 20 AND 46"));
    assert!(sql.contains("TO '/tmp/ocean.parquet'"));
    assert!(sql.contains("    bbox,\n"));
}
#[test]
fn clip_sql_joins_ocean_by_overlapping_bbox() {
    let sql =
        build_clip_ocean_sql("/tmp/div.parquet", "/tmp/ocean.parquet", "/tmp/out.parquet");

    assert!(sql.contains("JOIN read_parquet('/tmp/ocean.parquet')"));
    assert!(sql.contains("o.bbox.xmin <= d.bbox.xmax"));
    assert!(sql.contains("o.bbox.ymin <= d.bbox.ymax"));
}
#[test]
fn clip_sql_only_touches_municipalities() {
    let sql =
        build_clip_ocean_sql("/tmp/div.parquet", "/tmp/ocean.parquet", "/tmp/out.parquet");
    assert!(sql.contains(MUNICIPALITY_FILTER));
}
#[test]
fn clip_sql_drops_slivers() {
    let sql =
        build_clip_ocean_sql("/tmp/div.parquet", "/tmp/ocean.parquet", "/tmp/out.parquet");
    assert!(sql.contains("ST_Dump(ST_Difference(d.geometry, sea.geometry))"));
    assert!(sql.contains(&format!("ST_Area(part.geom) > {SLIVER_AREA}")));
}
#[test]
fn clip_sql_intersects_before_aggregating() {
    let sql =
        build_clip_ocean_sql("/tmp/div.parquet", "/tmp/ocean.parquet", "/tmp/out.parquet");
    assert!(sql.contains("ST_Intersection(d.geometry, o.geometry) AS part"));
    assert!(sql.contains("ST_Union_Agg(part)"));
}
#[test]
fn clip_sql_rebuilds_the_covering_bbox() {
    let sql =
        build_clip_ocean_sql("/tmp/div.parquet", "/tmp/ocean.parquet", "/tmp/out.parquet");

    assert!(sql.contains("xmin: ST_XMin(geometry)"));
    assert!(sql.contains("ymax: ST_YMax(geometry)"));
    assert!(sql.contains("WHERE NOT ST_IsEmpty(geometry)"));
}
#[test]
fn divisions_sql_materializes_the_scan() {
    let sql = build_divisions_extract_sql("2026-07-22.0", "JP", japan_bbox(), "/tmp/div.parquet");
    assert!(sql.contains("WITH divisions AS MATERIALIZED"));
}
#[test]
fn admin_stats_and_output_select_the_same_rows() {
    let stats = build_admin_stats_sql("/tmp/div.parquet");
    let copy = build_admin_sql("/tmp/div.parquet", "/tmp/admin.parquet", "{}");

    assert!(stats.contains(MUNICIPALITY_FILTER));
    assert!(copy.contains(MUNICIPALITY_FILTER));
}

#[test]
fn admin_sql_maps_columns_to_the_shared_schema() {
    let sql = build_admin_sql("/tmp/div.parquet", "/tmp/admin.parquet", "{}");

    assert!(sql.contains("id AS admin_id"));
    assert!(sql.contains("name AS city_name"));
    assert!(sql.contains("NULL::VARCHAR AS county_name"));
    assert!(sql.contains("NULL::VARCHAR AS ward_name"));
    assert!(sql.contains("    bbox,\n"));
}
#[test]
fn admin_sql_writes_its_own_geo_metadata() {
    let sql = build_admin_sql(
        "/tmp/div.parquet",
        "/tmp/admin.parquet",
        r#"{"version":"1.1.0"}"#,
    );

    assert!(sql.contains("ST_AsWKB(geometry)::BLOB AS geometry"));
    assert!(sql.contains(r#"KV_METADATA { geo: '{"version":"1.1.0"}' }"#));
}
#[test]
fn admin_sql_escapes_quotes_in_metadata() {
    let sql = build_admin_sql("/tmp/div.parquet", "/tmp/admin.parquet", "it's");
    assert!(sql.contains("geo: 'it''s'"));
}
#[test]
fn roads_extract_drops_the_gers_id() {
    let sql = build_roads_extract_sql("2026-07-22.0", japan_bbox(), "/tmp/roads.parquet");

    assert!(sql.contains("theme=transportation/type=segment"));
    assert!(!sql.contains("    id,"));
    assert!(sql.contains("subtype = 'road'"));
}
#[test]
fn roads_extract_streams_within_a_memory_limit() {
    let sql = build_roads_extract_sql("2026-07-22.0", japan_bbox(), "/tmp/roads.parquet");

    assert!(sql.contains("SET preserve_insertion_order = false;"));
    assert!(sql.contains("SET memory_limit = '2GB';"));
}
#[test]
fn roads_extract_keeps_every_route() {
    let sql = build_roads_extract_sql("2026-07-22.0", japan_bbox(), "/tmp/roads.parquet");

    assert!(sql.contains(
        "lambda r: r.name
    ) AS route_names"
    ));
    assert!(sql.contains(
        "lambda r: r.network
    ) AS networks"
    ));
    assert!(sql.contains("coalesce(routes, [])"));
}
#[test]
fn roads_extract_limits_the_classes() {
    let sql = build_roads_extract_sql("2026-07-22.0", japan_bbox(), "/tmp/roads.parquet");

    for class in road_classes() {
        assert!(sql.contains(&format!("'{class}'")), "{class} が無い");
    }
    assert!(!sql.contains("'residential'"));
}
#[test]
fn roads_sql_writes_one_class_at_a_time() {
    let sql = build_roads_sql(
        "/tmp/roads.parquet",
        "/tmp/div.parquet",
        "trunk",
        "/tmp/out.parquet",
        r#"{"version":"1.1.0"}"#,
        "2026-07-22.0",
    );

    assert!(sql.contains("WHERE r.class = 'trunk'"));
    assert!(sql.contains("ST_AsWKB(r.geometry)::BLOB AS geometry"));
    assert!(sql.contains(r#"geo: '{"version":"1.1.0"}'"#));
    assert!(sql.contains("'duck:vintage': '2026-07-22.0'"));
}
#[test]
fn roads_sql_keeps_japan_only() {
    let sql = build_roads_sql(
        "/tmp/roads.parquet",
        "/tmp/div.parquet",
        "trunk",
        "/tmp/out.parquet",
        "{}",
        "v",
    );

    assert!(sql.contains("ST_Intersects(jp.geometry, r.geometry)"));
    assert!(sql.contains(MUNICIPALITY_FILTER));
    assert!(!sql.contains("subtype = 'region'"));
}
#[test]
fn roads_sql_rescues_segments_with_a_japanese_route_network() {
    let sql = build_roads_sql(
        "/tmp/roads.parquet",
        "/tmp/div.parquet",
        "trunk",
        "/tmp/out.parquet",
        "{}",
        "v",
    );

    assert!(sql.contains("starts_with(n, 'JP')"));
    assert!(sql.contains("OR len(list_filter(r.networks,"));
}
#[test]
fn roads_sql_does_not_ship_the_network_list() {
    let sql = build_roads_sql(
        "/tmp/roads.parquet",
        "/tmp/div.parquet",
        "trunk",
        "/tmp/out.parquet",
        "{}",
        "v",
    );
    assert!(sql.contains(
        "    r.route_names,
"
    ));
    assert!(!sql.contains(
        "    r.networks,
"
    ));
}
#[test]
fn roads_extract_keeps_the_two_lists_aligned() {
    let sql = build_roads_extract_sql("2026-07-22.0", japan_bbox(), "/tmp/roads.parquet");
    assert!(sql.contains("list_filter(coalesce(routes, []), lambda r: r.name IS NOT NULL)"));
    assert!(!sql.contains("lambda x: x IS NOT NULL"));
}
#[test]
fn road_routes_index_has_no_geometry() {
    let sql = build_road_routes_sql("/tmp/roads_*.parquet", "/tmp/routes.parquet");

    assert!(sql.contains("unnest(route_names) AS route_name"));
    assert!(sql.contains("GROUP BY route_name"));
    assert!(!sql.contains("geometry"));
}
#[test]
fn roads_stats_use_the_same_filter_as_the_output() {
    let stats = build_roads_stats_sql("/tmp/roads.parquet", "/tmp/div.parquet", "trunk");

    assert!(stats.contains("ST_Intersects(jp.geometry, r.geometry)"));
    assert!(stats.contains("starts_with(n, 'JP')"));
    assert!(stats.contains("WHERE r.class = 'trunk'"));
}

#[test]
fn names_the_side_that_is_no_number() {
    let err = BoundingBox::parse("139.73", "south", "139.78", "35.68").unwrap_err();
    assert!(matches!(err, BoundingBoxError::NotANumber { side: "ymin", .. }));
    assert_eq!(err.to_string(), "ymin が数値として読めません: \"south\": invalid float literal");
}

#[test]
fn shows_an_inverted_area() {
    let err = BoundingBox::parse("139.78", "35.63", "139.73", "35.68").unwrap_err();
    assert_eq!(
        err.to_string(),
        "範囲が不正です (min >= max): BoundingBox { xmin: 139.78, ymin: 35.63, xmax: 139.73, ymax: 35.68 }"
    );
    assert!(BoundingBox::parse("1", "2", "1", "3").is_err());
    assert!(BoundingBox::parse("-0", "2", "0", "3").is_err());
}

#[test]
fn writes_the_whole_statement_for_roads() {
    let sql = build_roads_stats_sql("in.parquet", "div.parquet", "trunk");
    assert!(sql.starts_with(
        "INSTALL spatial; LOAD spatial;\nSET threads = 4;\nSET memory_limit = '2GB';\nSET preserve_insertion_order = false;\nSELECT\n"
    ));
    assert!(sql.ends_with("> 0\n  );"));
}

#[test]
fn doubles_quotes_in_the_vintage() {
    let sql = build_roads_sql("i", "d", "trunk", "o", "a'b", "c''d");
    assert!(sql.contains("geo: 'a''b',"));
    assert!(sql.contains("'duck:vintage': 'c''''d'\n});"));
}

#[test]
fn lists_the_classes_as_literals() {
    let sql = build_roads_extract_sql("r", japan_bbox(), "o");
    assert!(sql.contains("AND class IN ('motorway', 'trunk', 'primary')\n) TO 'o'"));
}

fn stats(sides: [f64; 4], types: &[&str]) -> Stats {
    let [xmin, ymin, xmax, ymax] = sides.map(|x| Real { bits: x.to_bits() });
    Stats {
        bounds: Bounds { xmin, ymin, xmax, ymax },
        geometry_types: types.iter().map(|t| t.to_string()).collect(),
    }
}

#[test]
fn describes_the_extent_that_was_found() {
    let found = stats([122.5, 20.0, 154.0, 46.25], &["MULTIPOLYGON", "POLYGON"]);
    let types = geometry_types(&found).unwrap();
    assert_eq!(types, vec!["MultiPolygon".to_string(), "Polygon".to_string()]);
    let geo = metadata_for(&found, &types).unwrap();
    let value: serde_json::Value = serde_json::from_str(&geo).unwrap();
    assert_eq!(value["columns"]["geometry"]["bbox"][0], 122.5);
    assert_eq!(value["columns"]["geometry"]["covering"]["bbox"]["ymax"][0], "bbox");
}

#[test]
fn rejects_an_unknown_type_among_the_extent() {
    let found = stats([1.0, 2.0, 3.0, 4.0], &["POINT", "triangle"]);
    let err = geometry_types(&found).unwrap_err();
    assert_eq!(err.name, "TRIANGLE");
    assert_eq!(err.to_string(), "未知のジオメトリ種別: \"TRIANGLE\"");
}
