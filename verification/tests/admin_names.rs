use duck_geocoder::admin_names::build_extract_sql;


#[test]
fn selects_only_the_columns_used_for_search() {
    let sql = build_extract_sql("/tmp/admin.parquet", "/tmp/names.parquet");

    assert!(sql.contains("SELECT DISTINCT"));
    for column in [
        "admin_id",
        "pref_name",
        "county_name",
        "city_name",
        "ward_name",
    ] {
        assert!(sql.contains(column), "{column} が無い");
    }
    assert!(!sql.contains("geometry"));
    assert!(!sql.contains("bbox"));
}
#[test]
fn replaces_missing_names_with_empty_strings() {
    let sql = build_extract_sql("/tmp/admin.parquet", "/tmp/names.parquet");

    for column in ["county_name", "city_name", "ward_name"] {
        assert!(
            sql.contains(&format!("coalesce({column}, '') AS {column}")),
            "{column} がNULLのままになる"
        );
    }
}

#[test]
fn embeds_input_and_output() {
    let sql = build_extract_sql("/tmp/admin.parquet", "/tmp/names.parquet");
    assert!(sql.contains("read_parquet('/tmp/admin.parquet')"));
    assert!(sql.contains("TO '/tmp/names.parquet'"));
}
