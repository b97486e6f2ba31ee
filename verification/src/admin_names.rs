//! The names of administrative areas, for searching.
//!
//! The names are a small part of a file of areas, spread over all of it. Reading
//! them from there takes many requests, so they get a file of their own. It has
//! no geometry, so it is plain Parquet.
use crate::text;
use vstd::prelude::*;

verus! {

/// The names that are searched: where a level is missing, the empty text, for
/// the levels of a name are put together.
pub const NAMES_SELECT: &'static str = "COPY (
  SELECT DISTINCT
    admin_id,
    pref_name,
    coalesce(county_name, '') AS county_name,
    coalesce(city_name, '') AS city_name,
    coalesce(ward_name, '') AS ward_name
  FROM read_parquet('";

/// In the order of their levels.
pub const NAMES_ORDER: &'static str = "')
  ORDER BY pref_name, county_name, city_name, ward_name
) TO '";

/// Takes the names out of a file of administrative areas.
pub open spec fn extract_sql(input: Seq<char>, output: Seq<char>) -> Seq<char> {
    NAMES_SELECT@ + input + NAMES_ORDER@ + output + "' (FORMAT PARQUET);"@
}

pub fn build_extract_sql(input: &str, output: &str) -> (sql: String)
    ensures
        sql@ == extract_sql(input@, output@),
{
    let mut sql = NAMES_SELECT.to_string();
    sql.append(input);
    sql.append(NAMES_ORDER);
    sql.append(output);
    sql.append("' (FORMAT PARQUET);");
    sql
}

/// Every name is taken once, with the empty text for a level that is missing,
/// and in the order of the levels: prefecture, county, city, ward.
pub proof fn law_names_keep_their_levels(input: Seq<char>, output: Seq<char>)
    ensures
        text::has_part(
            extract_sql(input, output),
            "admin_id,\n    pref_name,\n    coalesce(county_name, '') AS county_name,\n    coalesce(city_name, '') AS city_name,\n    coalesce(ward_name, '') AS ward_name\n  FROM"@,
        ),
        text::has_part(extract_sql(input, output), "SELECT DISTINCT"@),
        text::has_suffix(
            extract_sql(input, output),
            input + "')\n  ORDER BY pref_name, county_name, city_name, ward_name\n) TO '"@
                + output + "' (FORMAT PARQUET);"@,
        ),
{
    reveal_strlit("COPY (
  SELECT DISTINCT
    admin_id,
    pref_name,
    coalesce(county_name, '') AS county_name,
    coalesce(city_name, '') AS city_name,
    coalesce(ward_name, '') AS ward_name
  FROM read_parquet('");
    reveal_strlit("admin_id,\n    pref_name,\n    coalesce(county_name, '') AS county_name,\n    coalesce(city_name, '') AS city_name,\n    coalesce(ward_name, '') AS ward_name\n  FROM");
    reveal_strlit("SELECT DISTINCT");
    let part = "admin_id,\n    pref_name,\n    coalesce(county_name, '') AS county_name,\n    coalesce(city_name, '') AS city_name,\n    coalesce(ward_name, '') AS ward_name\n  FROM"@;
    assert(NAMES_SELECT@.subrange(29, 189) =~= part);
    assert(text::occurs_at(NAMES_SELECT@, part, 29));
    assert(NAMES_SELECT@.subrange(9, 24) =~= "SELECT DISTINCT"@);
    assert(text::occurs_at(NAMES_SELECT@, "SELECT DISTINCT"@, 9));
    let tail = input + NAMES_ORDER@ + output + "' (FORMAT PARQUET);"@;
    let none = Seq::<char>::empty();
    assert(extract_sql(input, output) =~= none + NAMES_SELECT@ + tail);
    text::lemma_part_inside(none, NAMES_SELECT@, tail, part);
    text::lemma_part_inside(none, NAMES_SELECT@, tail, "SELECT DISTINCT"@);
    assert(extract_sql(input, output) =~= NAMES_SELECT@ + tail);
    text::lemma_suffix(NAMES_SELECT@, tail);
}

} // verus!
