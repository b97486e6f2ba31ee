use duck_geocoder::catalog::{
    build_catalog, delivery_path, describe, describe_parquet, descriptions, key_value,
    read_geo_metadata, vocabulary_of, Attribution, CatalogError, ColumnEntry,
    DatasetKind, Footer, KeyValue, ReadFile, Vocabulary, MAX_VOCABULARY,
};
use duck_geocoder::datasets::{mlit_isj, mlit_ksj, overture};
use std::collections::HashMap;
use std::path::Path;

fn parts(path: &str) -> Vec<Vec<u8>> {
    Path::new(path)
        .components()
        .map(|c| c.as_os_str().as_encoded_bytes().to_vec())
        .collect()
}

#[test]
fn parses_geo_metadata() {
    let geo = r#"{
        "version": "1.1.0",
        "primary_column": "geometry",
        "columns": {
            "geometry": {
                "encoding": "WKB",
                "geometry_types": ["MultiPolygon"],
                "bbox": [138.9, 35.1, 139.8, 35.6]
            }
        }
    }"#;
    let (types, bbox) = read_geo_metadata(geo).unwrap();
    assert_eq!(types, vec!["MultiPolygon"]);
    let bbox = bbox.unwrap();
    assert_eq!(
        [bbox.xmin, bbox.ymin, bbox.xmax, bbox.ymax].map(|r| f64::from_bits(r.bits)),
        [138.9, 35.1, 139.8, 35.6]
    );
}

#[test]
fn rejects_metadata_without_primary_column() {
    assert!(read_geo_metadata(r#"{"version":"1.1.0"}"#).is_err());
}

#[test]
fn maps_file_names_to_datasets() {
    assert_eq!(describe("n03_all").unwrap().kind, DatasetKind::Admin);
    assert_eq!(
        describe("overture_admin_jp").unwrap().kind,
        DatasetKind::Admin
    );
    assert_eq!(describe("isj_oaza_13").unwrap().kind, DatasetKind::Oaza);
    assert_eq!(describe("isj_block_14").unwrap().kind, DatasetKind::Block);
    assert_eq!(
        describe("overture_buildings_minato").unwrap().kind,
        DatasetKind::Buildings
    );
    assert!(describe("unknown_data").is_none());
}

#[test]
fn longer_prefixes_are_not_shadowed() {
    for (prefix, own) in descriptions() {
        let described = describe(&format!("{prefix}_jp")).expect(prefix);
        assert_eq!(
            described,
            describe(prefix).unwrap(),
            "{prefix} が別の定義に吸われている",
        );
        assert_eq!(described, own);
    }
}

#[test]
fn delivery_path_is_relative_and_slash_separated() {
    let base = parts("/data/output");
    assert_eq!(
        delivery_path(&parts("/data/output/estat/mesh_pop_13.parquet"), &base).unwrap(),
        "estat/mesh_pop_13.parquet",
    );
    assert_eq!(
        delivery_path(&parts("/data/output/n03_all.parquet"), &base).unwrap(),
        "n03_all.parquet",
    );
}

#[test]
fn a_part_that_is_no_text_has_no_delivery_path() {
    let mut path = parts("/data/output/a.parquet");
    path.push(vec![0xff]);
    assert_eq!(delivery_path(&path, &parts("/data/output")), None);
}

#[test]
fn a_base_that_is_no_text_is_stripped() {
    let base = vec![b"/".to_vec(), vec![0xff, 0xfe]];
    let mut path = base.clone();
    path.push(b"estat".to_vec());
    path.push(b"a.parquet".to_vec());
    assert_eq!(delivery_path(&path, &base).unwrap(), "estat/a.parquet");
    assert_eq!(delivery_path(&path, &parts("/data")), None);
}

#[test]
fn every_dataset_carries_an_attribution() {
    for (prefix, described) in descriptions() {
        let Attribution { text, url, .. } = described.attribution;
        assert!(!text.is_empty(), "{prefix} に出典が無い");
        assert!(
            url.starts_with("https://"),
            "{prefix} に出典元のURLが無い: {url}"
        );
    }
}

#[test]
fn mlit_attributions_follow_the_required_form() {
    for Attribution { text, url, .. } in [mlit_isj(), mlit_ksj()] {
        assert!(
            text.contains("（国土交通省）"),
            "作成者の表示が無い: {text}"
        );
        assert!(
            text.contains("もとに作成"),
            "加工した旨の記載が無い: {text}"
        );
        assert!(
            url.contains("nlftp.mlit.go.jp"),
            "当該ページのURLが国土交通省のものでない: {url}",
        );
    }
}

#[test]
fn filterable_datasets_declare_a_vocabulary() {
    for (prefix, described) in descriptions() {
        let is_filterable = matches!(
            described.kind,
            DatasetKind::Buildings
                | DatasetKind::PlateauBuildings
                | DatasetKind::Railway
                | DatasetKind::RailwayStation
                | DatasetKind::Road
        );
        assert_eq!(
            is_filterable,
            !described.kind.summary_columns().is_empty(),
            "{prefix}: 絞り込める種別には語彙にする列が要る / それ以外には要らない",
        );
    }
}

#[test]
fn each_collection_holds_one_kind() {
    let mut kinds: HashMap<&str, DatasetKind> = HashMap::new();
    for (prefix, described) in descriptions() {
        assert!(
            !described.collection.is_empty(),
            "{prefix} にCollectionが無い"
        );
        assert!(
            !described.description.is_empty(),
            "{prefix} に説明が無い (STACの必須項目)"
        );
        if let Some(existing) = kinds.insert(described.collection, described.kind) {
            assert_eq!(
                existing, described.kind,
                "{} に種別が2つある",
                described.collection
            );
        }
    }
}

#[test]
fn overture_attribution_credits_odbl_and_openstreetmap() {
    let text = overture().text;
    assert!(text.contains("ODbL"), "{}", text);
    assert!(text.contains("OpenStreetMap"), "{}", text);
}

const GEO: &str = r#"{"version":"1.1.0","primary_column":"geometry","columns":{"geometry":{"geometry_types":["Point"],"bbox":[1.5,2.0,3.0,4.0]}}}"#;

fn footer(metadata: &[(&str, &str)]) -> Footer {
    Footer {
        metadata: metadata
            .iter()
            .map(|(key, value)| KeyValue {
                key: key.to_string(),
                value: Some(value.to_string()),
            })
            .collect(),
        columns: vec![ColumnEntry {
            name: "name".to_string(),
            data_type: "BYTE_ARRAY".to_string(),
        }],
        row_count: 7,
    }
}

#[test]
fn describes_a_file_by_its_name_and_its_footer() {
    let footer = footer(&[("geo", GEO), ("duck:via", "https://example.invalid/a.zip"), ("duck:vintage", "v1")]);
    let entry = describe_parquet("isj_oaza_13", "isj/isj_oaza_13.parquet", &footer, &vec![]).unwrap();
    assert_eq!(entry.id, "isj_oaza_13");
    assert_eq!(entry.file, "isj/isj_oaza_13.parquet");
    assert_eq!(entry.kind, DatasetKind::Oaza);
    assert_eq!(entry.geometry_types, vec!["Point".to_string()]);
    assert_eq!(f64::from_bits(entry.bbox.unwrap().xmin.bits), 1.5);
    assert_eq!(entry.row_count, 7);
    assert_eq!(entry.columns, footer.columns);
    assert_eq!(entry.via.as_deref(), Some("https://example.invalid/a.zip"));
    assert_eq!(entry.vintage.as_deref(), Some("v1"));
    assert!(entry.summaries.is_empty());
}

#[test]
fn a_file_without_geo_metadata_has_no_place_unless_it_holds_names() {
    let bare = footer(&[]);
    assert_eq!(
        describe_parquet("isj_oaza_13", "a.parquet", &bare, &vec![]).unwrap_err(),
        CatalogError::NoGeoMetadata("a.parquet".to_string())
    );
    let names = describe_parquet("overture_admin_names_jp", "a.parquet", &bare, &vec![]).unwrap();
    assert_eq!(names.kind, DatasetKind::AdminNames);
    assert_eq!(names.bbox, None);
    let unknown = describe_parquet("unknown", "a.parquet", &bare, &vec![]).unwrap_err();
    assert_eq!(unknown, CatalogError::UnknownDataset("a.parquet".to_string()));
    assert_eq!(unknown.to_string(), "未知のデータセットです: a.parquet");
}

#[test]
fn a_catalog_needs_files() {
    assert_eq!(build_catalog(&vec![]).unwrap_err(), CatalogError::NoFiles);
    let file = ReadFile {
        stem: "n03_all".to_string(),
        file: "n03_all.parquet".to_string(),
        footer: footer(&[("geo", GEO)]),
        vocabularies: vec![],
    };
    assert_eq!(build_catalog(&vec![file]).unwrap()[0].file, "n03_all.parquet");
}

#[test]
fn the_first_entry_with_a_key_counts() {
    let metadata = vec![
        KeyValue { key: "a".to_string(), value: None },
        KeyValue { key: "a".to_string(), value: Some("x".to_string()) },
        KeyValue { key: "b".to_string(), value: Some("y".to_string()) },
    ];
    assert_eq!(key_value(&metadata, "a"), None);
    assert_eq!(key_value(&metadata, "b").as_deref(), Some("y"));
}

#[test]
fn a_vocabulary_begins_with_the_most_frequent() {
    let words: Vec<String> = ["b", "a", "c", "a", "c", "a"].iter().map(|s| s.to_string()).collect();
    assert_eq!(
        vocabulary_of(&words),
        Some(vec!["a".to_string(), "c".to_string(), "b".to_string()])
    );
}

#[test]
fn too_many_words_are_no_vocabulary() {
    let words: Vec<String> = (0..=MAX_VOCABULARY).map(|i| format!("w{i}")).collect();
    assert_eq!(vocabulary_of(&words), None);
    assert_eq!(vocabulary_of(&words[1..].to_vec()).unwrap().len(), MAX_VOCABULARY);

    let mut vocabulary = Vocabulary::new();
    for word in &words[..MAX_VOCABULARY] {
        assert!(vocabulary.add(word));
    }
    assert!(!vocabulary.add("one more"));
    assert!(vocabulary.add("w0"));
    assert_eq!(vocabulary.finish().unwrap()[0], "w0");
    assert_eq!(Vocabulary::new().finish(), None);
}
