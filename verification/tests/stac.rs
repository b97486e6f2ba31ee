use duck_geocoder::catalog::{ColumnEntry, DatasetEntry, Summary};
use duck_geocoder::datasets::{Attribution, DatasetKind};
use duck_geocoder::geo::Bounds;
use duck_geocoder::number::Real;
use duck_geocoder::stac::{build, collection_count, Document, StacError, STAC_VERSION};
use serde_json::Value;

fn num(x: f64) -> Real {
    Real { bits: x.to_bits() }
}

fn attribution() -> Attribution {
    Attribution {
        text: "「出典」（どこか）をもとに作成",
        url: "https://example.invalid/",
        license: "other",
        provider: "どこか",
    }
}

fn entry(id: &str, file: &str, bbox: Option<[f64; 4]>) -> DatasetEntry {
    DatasetEntry {
        id: id.to_string(),
        file: file.to_string(),
        kind: DatasetKind::PopulationMesh,
        collection: "estat-mesh-pop",
        title: "人口メッシュ",
        description: "説明",
        attribution: attribution(),
        geometry_types: vec!["Polygon".to_string()],
        bbox: bbox.map(|b| Bounds {
            xmin: num(b[0]),
            ymin: num(b[1]),
            xmax: num(b[2]),
            ymax: num(b[3]),
        }),
        row_count: 10,
        columns: vec![ColumnEntry {
            name: "population".to_string(),
            data_type: "INT32".to_string(),
        }],
        summaries: Vec::new(),
        mesh_digits: Some(11),
        via: None,
        vintage: None,
        collection_via: "https://example.invalid/download",
    }
}

fn find<'a>(documents: &'a [Document], path: &str) -> &'a Value {
    &documents
        .iter()
        .find(|document| document.path == path)
        .unwrap_or_else(|| panic!("{path} が無い"))
        .body
}

#[test]
fn writes_a_catalog_a_collection_and_an_item_collection() {
    let datasets = vec![
        entry(
            "mesh_pop_13",
            "estat/mesh_pop_13.parquet",
            Some([139.0, 35.0, 140.0, 36.0]),
        ),
        entry(
            "mesh_pop_14",
            "estat/mesh_pop_14.parquet",
            Some([139.0, 35.0, 139.5, 35.5]),
        ),
    ];
    let documents = build(&datasets).unwrap();

    let catalog = find(&documents, "catalog.json");
    assert_eq!(catalog["type"], "Catalog");
    assert_eq!(catalog["stac_version"], STAC_VERSION);
    let children: Vec<&Value> = catalog["links"]
        .as_array()
        .unwrap()
        .iter()
        .filter(|link| link["rel"] == "child")
        .collect();
    assert_eq!(children.len(), 1);
    assert_eq!(children[0]["href"], "estat-mesh-pop.json");

    let collection = find(&documents, "estat-mesh-pop.json");
    assert_eq!(collection["type"], "Collection");
    assert_eq!(collection["duck:kind"], "population_mesh");

    let items = find(&documents, "estat-mesh-pop-items.json");
    assert_eq!(items["type"], "FeatureCollection");
    assert_eq!(items["features"].as_array().unwrap().len(), 2);
}
#[test]
fn asset_href_is_the_delivery_path() {
    let datasets = vec![entry(
        "mesh_pop_13",
        "estat/mesh_pop_13.parquet",
        Some([139.0, 35.0, 140.0, 36.0]),
    )];
    let documents = build(&datasets).unwrap();
    let items = find(&documents, "estat-mesh-pop-items.json");
    assert_eq!(
        items["features"][0]["assets"]["data"]["href"],
        "estat/mesh_pop_13.parquet"
    );
}
#[test]
fn spatial_extent_is_only_the_overall_box() {
    let datasets = vec![
        entry("a", "a.parquet", Some([139.0, 35.0, 140.0, 36.0])),
        entry("b", "b.parquet", Some([138.0, 34.0, 139.0, 35.0])),
    ];
    let documents = build(&datasets).unwrap();
    let boxes = find(&documents, "estat-mesh-pop.json")["extent"]["spatial"]["bbox"]
        .as_array()
        .unwrap()
        .clone();
    assert_eq!(boxes, vec![Value::from(vec![138.0, 34.0, 140.0, 36.0])]);
}
#[test]
fn collection_carries_the_attribution_text() {
    let datasets = vec![entry("a", "a.parquet", None)];
    let documents = build(&datasets).unwrap();
    let collection = find(&documents, "estat-mesh-pop.json");
    assert_eq!(collection["duck:attribution"], attribution().text);
    assert_eq!(collection["duck:attribution_url"], attribution().url);
    assert_eq!(collection["providers"][0]["name"], "どこか");
}
#[test]
fn handles_datasets_without_geometry() {
    let datasets = vec![entry("a", "a.parquet", None)];
    let documents = build(&datasets).unwrap();
    let collection = find(&documents, "estat-mesh-pop.json");
    assert_eq!(
        collection["extent"]["spatial"]["bbox"],
        Value::from(vec![Value::from(vec![Value::Null; 4])])
    );
    let items = find(&documents, "estat-mesh-pop-items.json");
    assert_eq!(items["features"][0]["geometry"], Value::Null);
}
#[test]
fn merges_vocabularies_across_files_keeping_order() {
    let mut first = entry("a", "a.parquet", None);
    first.summaries = vec![Summary {
        column: "usage".to_string(),
        values: vec!["住宅".to_string(), "共同住宅".to_string()],
    }];
    let mut second = entry("b", "b.parquet", None);
    second.summaries = vec![Summary {
        column: "usage".to_string(),
        values: vec!["共同住宅".to_string(), "工場".to_string()],
    }];

    let documents = build(&vec![first, second]).unwrap();
    let usage = &find(&documents, "estat-mesh-pop.json")["summaries"]["usage"];
    assert_eq!(usage, &Value::from(vec!["住宅", "共同住宅", "工場"]));
}
#[test]
fn omits_summaries_when_there_is_no_vocabulary() {
    let documents = build(&vec![entry("a", "a.parquet", None)]).unwrap();
    let collection = find(&documents, "estat-mesh-pop.json");
    assert!(collection.get("summaries").is_none(), "{collection}");
}
#[test]
fn columns_live_on_the_collection_not_on_every_item() {
    let documents =
        build(&vec![entry("a", "a.parquet", None), entry("b", "b.parquet", None)]).unwrap();
    let collection = find(&documents, "estat-mesh-pop.json");
    assert_eq!(
        collection["item_assets"]["data"]["table:columns"][0]["name"],
        "population"
    );
    let items = find(&documents, "estat-mesh-pop-items.json");
    for feature in items["features"].as_array().unwrap() {
        assert!(
            feature["properties"].get("table:columns").is_none(),
            "Itemに列構成が入っている: {feature}"
        );
    }
}
fn via_hrefs(document: &Value) -> Vec<&str> {
    document["links"]
        .as_array()
        .unwrap()
        .iter()
        .filter(|link| link["rel"] == "via")
        .map(|link| link["href"].as_str().unwrap())
        .collect()
}

#[test]
fn collection_links_to_where_the_data_came_from() {
    let documents = build(&vec![entry("a", "a.parquet", None)]).unwrap();
    assert_eq!(
        via_hrefs(find(&documents, "estat-mesh-pop.json")),
        vec!["https://example.invalid/download"]
    );
}
#[test]
fn item_links_to_its_own_source_when_the_file_knows_it() {
    let mut with_source = entry("a", "a.parquet", None);
    with_source.via = Some("https://example.invalid/13103.zip".to_string());
    let plain = entry("b", "b.parquet", None);

    let documents = build(&vec![with_source, plain]).unwrap();
    let features = find(&documents, "estat-mesh-pop-items.json")["features"]
        .as_array()
        .unwrap()
        .clone();

    assert_eq!(
        via_hrefs(&features[0]),
        vec!["https://example.invalid/13103.zip"]
    );
    assert!(via_hrefs(&features[1]).is_empty());
}

#[test]
fn rejects_an_empty_catalog() {
    assert!(build(&vec![]).is_err());
}

#[test]
fn two_kinds_in_one_collection_are_an_error() {
    let mut other = entry("b", "b.parquet", None);
    other.kind = DatasetKind::Oaza;
    let err = build(&vec![entry("a", "a.parquet", None), other]).err().unwrap();
    assert_eq!(err, StacError::MixedKinds("estat-mesh-pop".to_string(), "b".to_string()));
    assert_eq!(err.to_string(), "estat-mesh-pop に種別の違うものが混ざっている: b");
}

#[test]
fn collections_are_in_the_order_of_their_ids() {
    let mut other = entry("b", "b.parquet", None);
    other.collection = "a-collection";
    let documents = build(&vec![entry("a", "a.parquet", None), other]).unwrap();
    let links = find(&documents, "catalog.json")["links"].as_array().unwrap().clone();
    let children: Vec<&str> = links
        .iter()
        .filter(|link| link["rel"] == "child")
        .map(|link| link["href"].as_str().unwrap())
        .collect();
    assert_eq!(children, vec!["a-collection.json", "estat-mesh-pop.json"]);
    assert_eq!(documents.len(), 5);
    assert_eq!(collection_count(&documents), 2);
}

fn three_files() -> Vec<DatasetEntry> {
    let mut own_source = entry("mesh_pop_14", "estat/mesh_pop_14.parquet", None);
    own_source.via = Some("https://example.invalid/14.zip".to_string());
    let mut other = entry("isj_oaza_14", "isj/isj_oaza_14.parquet", None);
    other.collection = "isj-oaza";
    vec![entry("mesh_pop_13", "estat/mesh_pop_13.parquet", None), own_source, other]
}

fn internal_hrefs(body: &Value) -> Vec<String> {
    let links = body["links"].as_array().unwrap();
    links
        .iter()
        .filter(|link| link["rel"] != "via")
        .map(|link| link["href"].as_str().unwrap().to_string())
        .collect()
}

#[test]
fn links_lead_to_documents() {
    let documents = build(&three_files()).unwrap();
    let paths: Vec<&str> = documents.iter().map(|d| d.path.as_str()).collect();
    for document in &documents {
        let mut hrefs = internal_hrefs(&document.body);
        if let Some(features) = document.body.get("features").and_then(|f| f.as_array()) {
            hrefs.extend(features.iter().flat_map(internal_hrefs));
        }
        assert!(hrefs.len() >= 2);
        for href in hrefs {
            assert!(paths.contains(&href.as_str()), "{href}");
        }
    }
}

#[test]
fn every_file_is_an_item_once() {
    let documents = build(&three_files()).unwrap();
    let mut ids: Vec<&str> = documents
        .iter()
        .filter_map(|d| d.body.get("features"))
        .flat_map(|f| f.as_array().unwrap())
        .map(|item| item["id"].as_str().unwrap())
        .collect();
    ids.sort();
    assert_eq!(ids, ["isj_oaza_14", "mesh_pop_13", "mesh_pop_14"]);
}

#[test]
fn documents_have_their_own_paths() {
    let documents = build(&three_files()).unwrap();
    let mut paths: Vec<&str> = documents.iter().map(|d| d.path.as_str()).collect();
    paths.sort();
    assert_eq!(
        paths,
        [
            "catalog.json",
            "estat-mesh-pop-items.json",
            "estat-mesh-pop.json",
            "isj-oaza-items.json",
            "isj-oaza.json",
        ]
    );
}
