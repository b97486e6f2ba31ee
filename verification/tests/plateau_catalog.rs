use duck_geocoder::plateau_batch::{
    check_buildings, output_name, report, survey_line, targets, total_size, Outcome, SelectError,
    Selector, SURVEY_HEADING,
};
use duck_geocoder::plateau_catalog::{find_city, parse_catalog, Catalog, City, NoCities};
use serde_json::Value;

const SAMPLE: &str = r#"{
  "datasets": [],
  "latest_citygml": [
    { "city_code": "13103", "city": "港区", "pref": "東京都",
      "url": "https://api.plateauview.mlit.go.jp/datacatalog/citygml/13103-latest/citygml.zip",
      "file_size": 2147483648, "feature_types": ["bldg", "dem"] },
    { "city_code": "01100", "city": "札幌市", "pref": "北海道",
      "url": "https://api.plateauview.mlit.go.jp/datacatalog/citygml/01100-latest/citygml.zip",
      "file_size": 2718857700, "feature_types": ["fld"] }
  ]
}"#;

fn text(v: &Value) -> String {
    v.as_str().unwrap().to_string()
}

fn texts(v: &Value) -> Vec<String> {
    v.as_array().map(|list| list.iter().map(text).collect()).unwrap_or_default()
}

fn read(json: &str) -> Catalog {
    let v: Value = serde_json::from_str(json).unwrap();
    let cities = v.get("latest_citygml").and_then(|list| list.as_array());
    let read_city = |c: &Value| City {
        city_code: text(&c["city_code"]),
        city: text(&c["city"]),
        pref: text(&c["pref"]),
        url: text(&c["url"]),
        file_size: c["file_size"].as_u64().unwrap(),
        feature_types: texts(&c["feature_types"]),
    };
    Catalog { latest_citygml: cities.map(|c| c.iter().map(read_city).collect()).unwrap_or_default() }
}

#[test]
fn reads_cities_from_the_catalog() {
    let cities = parse_catalog(read(SAMPLE)).unwrap();
    assert_eq!(cities.len(), 2);
    let minato = find_city(&cities, "13103").unwrap();
    assert_eq!(minato.city, "港区");
    assert_eq!(minato.file_size, 2147483648);
}

#[test]
fn knows_which_cities_have_buildings() {
    let cities = parse_catalog(read(SAMPLE)).unwrap();
    assert!(find_city(&cities, "13103").unwrap().has_buildings());
    assert!(!find_city(&cities, "01100").unwrap().has_buildings());
}

#[test]
fn rejects_an_unknown_city_code() {
    let cities = parse_catalog(read(SAMPLE)).unwrap();
    let err = find_city(&cities, "99999").unwrap_err();
    assert!(err.to_string().contains("99999"));
}

#[test]
fn rejects_a_catalog_without_latest_citygml() {
    let err = parse_catalog(read(r#"{"datasets": []}"#)).unwrap_err();
    assert_eq!(err, NoCities);
    assert!(err.to_string().contains("latest_citygml"));
}

fn city(code: &str, size: u64, kinds: &[&str]) -> City {
    City {
        city_code: code.to_string(),
        city: format!("city {code}"),
        pref: "pref".to_string(),
        url: "https://example.invalid/".to_string(),
        file_size: size,
        feature_types: kinds.iter().map(|k| k.to_string()).collect(),
    }
}

fn some() -> Vec<City> {
    vec![
        city("1", 30, &["bldg"]),
        city("2", 10, &["dem"]),
        city("3", 20, &["bldg"]),
        city("4", 30, &["bldg"]),
    ]
}

fn codes(list: &[&City]) -> Vec<String> {
    list.iter().map(|c| c.city_code.clone()).collect()
}

#[test]
fn targets_are_all_with_buildings_or_those_named() {
    let all = some();
    assert_eq!(codes(&targets("all", &all).unwrap()), vec!["1", "3", "4"]);
    assert_eq!(codes(&targets("4,2", &all).unwrap()), vec!["4", "2"]);
    assert_eq!(targets("4,9,8", &all).unwrap_err().city_code, "9");
    assert_eq!(targets("", &all).unwrap_err().city_code, "");
}

#[test]
fn a_sample_is_spread_over_the_sizes() {
    let all = some();
    let spacing = |i: usize, n: usize, len: usize| {
        let step = (len as f64 / n as f64).max(1.0);
        (i as f64 * step) as usize
    };
    let picked = Selector::Sample(2).pick(&all, spacing).unwrap();
    assert_eq!(codes(&picked), vec!["3", "1"]);
    let picked = Selector::Sample(5).pick(&all, spacing).unwrap();
    assert_eq!(codes(&picked), vec!["3", "1", "4", "4", "4"]);
    assert_eq!(Selector::Sample(0).pick(&all, spacing).unwrap_err(), SelectError::Nothing);
    assert_eq!(
        Selector::Sample(1).pick(&[city("2", 10, &[])], spacing).unwrap_err().to_string(),
        "選べる都市がありません"
    );
}

#[test]
fn selects_by_code_or_all() {
    let all = some();
    let none = |_: usize, _: usize, _: usize| 0usize;
    let by_code = Selector::Codes(vec!["2".to_string()]);
    assert_eq!(codes(&by_code.pick(&all, none).unwrap()), vec!["2"]);
    assert_eq!(codes(&Selector::All.pick(&all, none).unwrap()), vec!["1", "3", "4"]);
    let unknown = Selector::Codes(vec!["7".to_string()]);
    assert!(unknown.pick(&all, none).unwrap_err().to_string().contains("7"));
}

#[test]
fn refuses_a_city_without_buildings() {
    assert!(check_buildings(&city("1", 1, &["bldg"])).is_ok());
    assert_eq!(
        check_buildings(&city("1", 1, &["dem", "fld"])).unwrap_err().message,
        "pref city 1 は建物を収録していません (収録: dem, fld)"
    );
}

#[test]
fn reports_on_every_city() {
    let all = some();
    let cities: Vec<&City> = all.iter().collect();
    let outcomes = vec![Outcome::Converted, Outcome::Failed, Outcome::Skipped, Outcome::Failed];
    assert_eq!(
        report(&cities, &outcomes),
        vec![
            "変換 1 / 既存を飛ばした 1 / 失敗 2".to_string(),
            "失敗した都市: 2 city 2, 4 city 4".to_string(),
        ]
    );
    assert_eq!(
        report(&cities, &vec![Outcome::Converted]),
        vec!["変換 1 / 既存を飛ばした 0 / 失敗 0".to_string()]
    );
    assert_eq!(output_name(&all[0]), "plateau_bldg_1.parquet");
}

#[test]
fn a_survey_is_a_table() {
    assert_eq!(SURVEY_HEADING.split(',').count(), 8);
    assert_eq!(
        survey_line(&city("1", 30, &[]), 2, 300, 4000, "1.5"),
        "1,city 1,pref,30,2,300,4000,1.5"
    );
    assert_eq!(total_size(&vec![1, 2, 3]), Some(6));
    assert_eq!(total_size(&vec![u64::MAX, 1]), None);
}

#[test]
fn every_code_leads_to_its_city() {
    let cities = parse_catalog(read(SAMPLE)).unwrap();
    for city in &cities {
        assert_eq!(find_city(&cities, &city.city_code).unwrap().url, city.url);
    }
}
