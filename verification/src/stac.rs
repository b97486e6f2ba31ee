//! The catalog as STAC 1.1.0 documents, all of them side by side at the root of
//! the delivery: one catalog, and for each collection its description and a
//! single file with its items.
use crate::catalog;
use crate::catalog::{ColumnEntry, DatasetEntry, Summary};
use crate::datasets::Attribution;
use crate::geo::Bounds;
use crate::geoparquet;
use crate::geoparquet::bbox_json;
use crate::json;
use crate::json::{
    json_array, json_as_str, json_get, json_int, json_null, json_object, json_put, json_real,
    json_string, json_texts,
    JsonView,
};
use crate::number::Real;
use crate::text;
use crate::text::{contains_text, copy_texts, same_text, text_less};
use vstd::prelude::*;

verus! {

pub const STAC_VERSION: &'static str = "1.1.0";

/// The extension that `table:columns` and `table:row_count` come from.
pub const TABLE_EXTENSION: &'static str = "https://stac-extensions.github.io/table/v1.2.0/schema.json";

pub const PARQUET_MEDIA_TYPE: &'static str = "application/vnd.apache.parquet";

pub const JSON_MEDIA_TYPE: &'static str = "application/json";

pub const GEOJSON_MEDIA_TYPE: &'static str = "application/geo+json";

pub const CATALOG_ID: &'static str = "duck-geocoder";

pub const CATALOG_FILE: &'static str = "catalog.json";

pub const CATALOG_TITLE: &'static str = "duck-geocoder のデータ";

pub const CATALOG_DESCRIPTION: &'static str =
    "日本のオープン地理空間データをGeoParquetにしたもの。ブラウザからDuckDB-WASMで直接読む。";

/// A file to write.
pub struct Document {
    /// The path from the root of the delivery.
    pub path: String,
    pub body: serde_json::Value,
}

impl View for Document {
    type V = (Seq<char>, JsonView);

    open spec fn view(&self) -> (Seq<char>, JsonView) {
        (self.path@, json::json_of(self.body))
    }
}

pub open spec fn documents_view(documents: Seq<Document>) -> Seq<(Seq<char>, JsonView)> {
    Seq::new(documents.len(), |i: int| documents[i]@)
}

pub open spec fn collection_path(id: Seq<char>) -> Seq<char> {
    id + ".json"@
}

pub open spec fn items_path(id: Seq<char>) -> Seq<char> {
    id + "-items.json"@
}

fn collection_file(id: &str) -> (path: String)
    ensures
        path@ == collection_path(id@),
{
    let mut path = id.to_string();
    path.append(".json");
    path
}

fn items_file(id: &str) -> (path: String)
    ensures
        path@ == items_path(id@),
{
    let mut path = id.to_string();
    path.append("-items.json");
    path
}

// ---------------------------------------------------------------------------
// Links and shapes
// ---------------------------------------------------------------------------

pub open spec fn link_view(rel: Seq<char>, href: Seq<char>, media: Seq<char>) -> JsonView {
    JsonView::empty().with("rel"@, JsonView::Text(rel)).with("href"@, JsonView::Text(href)).with(
        "type"@,
        JsonView::Text(media),
    )
}

fn link(rel: &str, href: &str, media: &str) -> (v: serde_json::Value)
    ensures
        json::json_of(v) == link_view(rel@, href@, media@),
{
    let mut v = json_object();
    json_put(&mut v, "rel", json_string(rel));
    json_put(&mut v, "href", json_string(href));
    json_put(&mut v, "type", json_string(media));
    v
}

/// A link to where the data came from.
pub open spec fn via_view(href: Seq<char>) -> JsonView {
    JsonView::empty().with("rel"@, JsonView::Text("via"@)).with("href"@, JsonView::Text(href)).with(
        "title"@,
        JsonView::Text("配布元"@),
    )
}

fn via_link(href: &str) -> (v: serde_json::Value)
    ensures
        json::json_of(v) == via_view(href@),
{
    let mut v = json_object();
    json_put(&mut v, "rel", json_string("via"));
    json_put(&mut v, "href", json_string(href));
    json_put(&mut v, "title", json_string("配布元"));
    v
}

pub open spec fn point_view(x: Real, y: Real) -> JsonView {
    JsonView::Array(seq![JsonView::number(x), JsonView::number(y)])
}

fn point_json(x: Real, y: Real) -> (v: serde_json::Value)
    ensures
        json::json_of(v) == point_view(x, y),
{
    let mut items: Vec<serde_json::Value> = Vec::new();
    items.push(json_real(x));
    items.push(json_real(y));
    assert(json::views(items@) =~= seq![JsonView::number(x), JsonView::number(y)]);
    json_array(items)
}

/// The rectangle of bounds as a GeoJSON polygon, counterclockwise from the
/// south-western corner.
pub open spec fn rectangle_view(b: Bounds) -> JsonView {
    JsonView::empty().with("type"@, JsonView::Text("Polygon"@)).with(
        "coordinates"@,
        JsonView::Array(
            seq![
                JsonView::Array(
                    seq![
                        point_view(b.xmin, b.ymin),
                        point_view(b.xmax, b.ymin),
                        point_view(b.xmax, b.ymax),
                        point_view(b.xmin, b.ymax),
                        point_view(b.xmin, b.ymin),
                    ],
                ),
            ],
        ),
    )
}

/// A list with one value.
fn single(v: serde_json::Value) -> (list: serde_json::Value)
    ensures
        json::json_of(list) == JsonView::Array(seq![json::json_of(v)]),
{
    let ghost held = json::json_of(v);
    let mut items: Vec<serde_json::Value> = Vec::new();
    items.push(v);
    assert(json::views(items@) =~= seq![held]);
    json_array(items)
}

fn bbox_geometry(b: &Bounds) -> (v: serde_json::Value)
    ensures
        json::json_of(v) == rectangle_view(*b),
{
    let mut ring: Vec<serde_json::Value> = Vec::new();
    ring.push(point_json(b.xmin, b.ymin));
    ring.push(point_json(b.xmax, b.ymin));
    ring.push(point_json(b.xmax, b.ymax));
    ring.push(point_json(b.xmin, b.ymax));
    ring.push(point_json(b.xmin, b.ymin));
    assert(json::views(ring@) =~= seq![
        point_view(b.xmin, b.ymin),
        point_view(b.xmax, b.ymin),
        point_view(b.xmax, b.ymax),
        point_view(b.xmin, b.ymax),
        point_view(b.xmin, b.ymin),
    ]);
    let mut v = json_object();
    json_put(&mut v, "type", json_string("Polygon"));
    json_put(&mut v, "coordinates", single(json_array(ring)));
    v
}

// ---------------------------------------------------------------------------
// Items
// ---------------------------------------------------------------------------

pub open spec fn optional_bbox_view(bbox: Option<Bounds>) -> JsonView {
    match bbox {
        Some(b) => geoparquet::bbox_view(b.numbers()),
        None => JsonView::Null,
    }
}

pub open spec fn optional_rectangle_view(bbox: Option<Bounds>) -> JsonView {
    match bbox {
        Some(b) => rectangle_view(b),
        None => JsonView::Null,
    }
}

pub open spec fn properties_view(entry: DatasetEntry) -> JsonView {
    let always = JsonView::empty().with("datetime"@, JsonView::Null).with(
        "table:row_count"@,
        JsonView::Int(entry.row_count as int),
    );
    if entry.geometry_types@.len() > 0 {
        always.with("duck:geometry_types"@, json::text_array(text::texts(entry.geometry_types@)))
    } else {
        always
    }
}

pub open spec fn item_links(entry: DatasetEntry) -> Seq<JsonView> {
    let always = seq![
        link_view("root"@, CATALOG_FILE@, JSON_MEDIA_TYPE@),
        link_view("collection"@, collection_path(entry.collection@), JSON_MEDIA_TYPE@),
        link_view("parent"@, collection_path(entry.collection@), JSON_MEDIA_TYPE@),
    ];
    match entry.via {
        Some(via) => always.push(via_view(via@)),
        None => always,
    }
}

pub open spec fn asset_view(entry: DatasetEntry) -> JsonView {
    JsonView::empty().with("href"@, JsonView::Text(entry.file@)).with(
        "type"@,
        JsonView::Text(PARQUET_MEDIA_TYPE@),
    ).with("title"@, JsonView::Text(entry.title@)).with(
        "roles"@,
        JsonView::Array(seq![JsonView::Text("data"@)]),
    )
}

/// The STAC item for a file.
pub open spec fn item_view(entry: DatasetEntry) -> JsonView {
    JsonView::empty().with("type"@, JsonView::Text("Feature"@)).with(
        "stac_version"@,
        JsonView::Text(STAC_VERSION@),
    ).with("stac_extensions"@, JsonView::Array(seq![JsonView::Text(TABLE_EXTENSION@)])).with(
        "id"@,
        JsonView::Text(entry.id@),
    ).with("collection"@, JsonView::Text(entry.collection@)).with(
        "bbox"@,
        optional_bbox_view(entry.bbox),
    ).with("geometry"@, optional_rectangle_view(entry.bbox)).with(
        "properties"@,
        properties_view(entry),
    ).with("assets"@, JsonView::empty().with("data"@, asset_view(entry))).with(
        "links"@,
        JsonView::Array(item_links(entry)),
    )
}

fn properties(entry: &DatasetEntry) -> (v: serde_json::Value)
    ensures
        json::json_of(v) == properties_view(*entry),
{
    let mut v = json_object();
    json_put(&mut v, "datetime", json_null());
    json_put(&mut v, "table:row_count", json_int(entry.row_count));
    if entry.geometry_types.len() > 0 {
        json_put(&mut v, "duck:geometry_types", json_texts(&entry.geometry_types));
    }
    v
}

fn links_of_item(entry: &DatasetEntry) -> (v: serde_json::Value)
    ensures
        json::json_of(v) == JsonView::Array(item_links(*entry)),
{
    let file = collection_file(entry.collection);
    let mut links: Vec<serde_json::Value> = Vec::new();
    links.push(link("root", CATALOG_FILE, JSON_MEDIA_TYPE));
    links.push(link("collection", file.as_str(), JSON_MEDIA_TYPE));
    links.push(link("parent", file.as_str(), JSON_MEDIA_TYPE));
    match &entry.via {
        Some(via) => {
            links.push(via_link(via.as_str()));
        },
        None => {},
    }
    assert(json::views(links@) =~= item_links(*entry));
    json_array(links)
}

fn asset(entry: &DatasetEntry) -> (v: serde_json::Value)
    ensures
        json::json_of(v) == asset_view(*entry),
{
    let mut v = json_object();
    json_put(&mut v, "href", json_string(entry.file.as_str()));
    json_put(&mut v, "type", json_string(PARQUET_MEDIA_TYPE));
    json_put(&mut v, "title", json_string(entry.title));
    json_put(&mut v, "roles", single(json_string("data")));
    v
}

fn item(entry: &DatasetEntry) -> (v: serde_json::Value)
    ensures
        json::json_of(v) == item_view(*entry),
{
    let bbox = match &entry.bbox {
        Some(b) => bbox_json(b),
        None => json_null(),
    };
    let geometry = match &entry.bbox {
        Some(b) => bbox_geometry(b),
        None => json_null(),
    };
    let mut assets = json_object();
    json_put(&mut assets, "data", asset(entry));
    let mut v = json_object();
    json_put(&mut v, "type", json_string("Feature"));
    json_put(&mut v, "stac_version", json_string(STAC_VERSION));
    json_put(&mut v, "stac_extensions", single(json_string(TABLE_EXTENSION)));
    json_put(&mut v, "id", json_string(entry.id.as_str()));
    json_put(&mut v, "collection", json_string(entry.collection));
    json_put(&mut v, "bbox", bbox);
    json_put(&mut v, "geometry", geometry);
    json_put(&mut v, "properties", properties(entry));
    json_put(&mut v, "assets", assets);
    json_put(&mut v, "links", links_of_item(entry));
    v
}

// ---------------------------------------------------------------------------
// Vocabularies of a collection
// ---------------------------------------------------------------------------

/// `values` behind `held`, without those that are there already.
pub open spec fn merge_values(held: Seq<Seq<char>>, values: Seq<Seq<char>>) -> Seq<Seq<char>>
    decreases values.len(),
{
    if values.len() == 0 {
        held
    } else {
        let rest = merge_values(held, values.drop_last());
        if rest.contains(values.last()) {
            rest
        } else {
            rest.push(values.last())
        }
    }
}

/// The values that `m` has for a column.
pub open spec fn held_values(m: Map<Seq<char>, Seq<Seq<char>>>, column: Seq<char>) -> Seq<
    Seq<char>,
> {
    if m.contains_key(column) {
        m[column]
    } else {
        Seq::empty()
    }
}

pub open spec fn merge_summary(
    m: Map<Seq<char>, Seq<Seq<char>>>,
    column: Seq<char>,
    values: Seq<Seq<char>>,
) -> Map<Seq<char>, Seq<Seq<char>>> {
    m.insert(column, merge_values(held_values(m, column), values))
}

pub open spec fn merge_entry(
    m: Map<Seq<char>, Seq<Seq<char>>>,
    summaries: Seq<Summary>,
) -> Map<Seq<char>, Seq<Seq<char>>>
    decreases summaries.len(),
{
    if summaries.len() == 0 {
        m
    } else {
        merge_summary(
            merge_entry(m, summaries.drop_last()),
            summaries.last().column@,
            text::texts(summaries.last().values@),
        )
    }
}

/// The vocabularies of several files together, in the order in which values
/// first appear.
pub open spec fn merged(entries: Seq<DatasetEntry>) -> Map<Seq<char>, Seq<Seq<char>>>
    decreases entries.len(),
{
    if entries.len() == 0 {
        Map::empty()
    } else {
        merge_entry(merged(entries.drop_last()), entries.last().summaries@)
    }
}

/// No column comes twice.
pub open spec fn columns_differ(list: Seq<Summary>) -> bool {
    forall|i: int, j: int|
        0 <= i < j < list.len() ==> (#[trigger] list[i]).column@ != (#[trigger] list[j]).column@
}

proof fn lemma_map_lookup(list: Seq<Summary>, i: int)
    requires
        columns_differ(list),
        0 <= i < list.len(),
    ensures
        catalog::summary_map(list).contains_key(list[i].column@),
        catalog::summary_map(list)[list[i].column@] == text::texts(list[i].values@),
    decreases list.len(),
{
    if i < list.len() - 1 {
        let rest = list.drop_last();
        assert forall|a: int, b: int| 0 <= a < b < rest.len() implies (#[trigger] rest[a]).column@
            != (#[trigger] rest[b]).column@ by {
            assert(rest[a] == list[a] && rest[b] == list[b]);
        }
        lemma_map_lookup(rest, i);
        assert(rest[i] == list[i]);
        assert(list[i].column@ != list[list.len() - 1].column@);
    }
}

proof fn lemma_map_absent(list: Seq<Summary>, column: Seq<char>)
    requires
        forall|i: int| 0 <= i < list.len() ==> (#[trigger] list[i]).column@ != column,
    ensures
        !catalog::summary_map(list).contains_key(column),
    decreases list.len(),
{
    if list.len() > 0 {
        let rest = list.drop_last();
        assert forall|i: int| 0 <= i < rest.len() implies (#[trigger] rest[i]).column@
            != column by {
            assert(rest[i] == list[i]);
        }
        lemma_map_absent(rest, column);
        assert(list[list.len() - 1].column@ != column);
    }
}

/// Replacing the vocabulary of a column.
proof fn lemma_map_update(list: Seq<Summary>, i: int, x: Summary)
    requires
        columns_differ(list),
        0 <= i < list.len(),
        x.column@ == list[i].column@,
    ensures
        catalog::summary_map(list.update(i, x)) == catalog::summary_map(list).insert(
            x.column@,
            text::texts(x.values@),
        ),
        columns_differ(list.update(i, x)),
    decreases list.len(),
{
    let t = list.update(i, x);
    assert forall|a: int, b: int| 0 <= a < b < t.len() implies (#[trigger] t[a]).column@ != (
    #[trigger] t[b]).column@ by {
        assert(t[a].column@ == list[a].column@ && t[b].column@ == list[b].column@);
    }
    let rest = list.drop_last();
    if i == list.len() - 1 {
        assert(t.drop_last() =~= rest);
        assert(catalog::summary_map(t) =~= catalog::summary_map(list).insert(
            x.column@,
            text::texts(x.values@),
        ));
    } else {
        assert forall|a: int, b: int| 0 <= a < b < rest.len() implies (#[trigger] rest[a]).column@
            != (#[trigger] rest[b]).column@ by {
            assert(rest[a] == list[a] && rest[b] == list[b]);
        }
        assert(rest[i] == list[i]);
        lemma_map_update(rest, i, x);
        assert(t.drop_last() =~= rest.update(i, x));
        assert(t.last() == list.last());
        assert(list[i].column@ != list[list.len() - 1].column@);
        assert(catalog::summary_map(t) =~= catalog::summary_map(list).insert(
            x.column@,
            text::texts(x.values@),
        ));
    }
}

fn add_values(held: Vec<String>, values: &Vec<String>) -> (out: Vec<String>)
    ensures
        text::texts(out@) == merge_values(text::texts(held@), text::texts(values@)),
{
    let ghost all = text::texts(values@);
    let ghost start = text::texts(held@);
    let mut out = held;
    let mut i: usize = 0;
    assert(all.take(0) == Seq::<Seq<char>>::empty());
    while i < values.len()
        invariant
            i <= values@.len(),
            all == text::texts(values@),
            text::texts(out@) == merge_values(start, all.take(i as int)),
        decreases values@.len() - i,
    {
        let ghost before = text::texts(out@);
        assert(all.take(i + 1).drop_last() == all.take(i as int));
        assert(all.take(i + 1).last() == values@[i as int]@);
        if !contains_text(&out, values[i].as_str()) {
            out.push(values[i].clone());
            assert(text::texts(out@) =~= before.push(values@[i as int]@));
        }
        i = i + 1;
    }
    assert(all.take(i as int) == all);
    out
}

fn add_summary(list: Vec<Summary>, s: &Summary) -> (out: Vec<Summary>)
    requires
        columns_differ(list@),
    ensures
        columns_differ(out@),
        catalog::summary_map(out@) == merge_summary(
            catalog::summary_map(list@),
            s.column@,
            text::texts(s.values@),
        ),
        out@.len() > 0,
{
    let ghost before = list@;
    let mut kept = list;
    let mut i: usize = 0;
    while i < kept.len()
        invariant
            i <= kept@.len(),
            kept@ == before,
            before == list@,
            columns_differ(before),
            forall|j: int| 0 <= j < i ==> (#[trigger] kept@[j]).column@ != s.column@,
        decreases kept@.len() - i,
    {
        if same_text(kept[i].column.as_str(), s.column.as_str()) {
            proof {
                lemma_map_lookup(before, i as int);
            }
            let held = copy_texts(&kept[i].values);
            let x = Summary { column: s.column.clone(), values: add_values(held, &s.values) };
            proof {
                lemma_map_update(before, i as int, x);
            }
            kept.set(i, x);
            assert(kept@ == before.update(i as int, x));
            return kept;
        }
        i = i + 1;
    }
    let none: Vec<String> = Vec::new();
    assert(text::texts(none@) =~= Seq::<Seq<char>>::empty());
    let x = Summary { column: s.column.clone(), values: add_values(none, &s.values) };
    proof {
        lemma_map_absent(before, s.column@);
        assert(before.push(x).drop_last() == before);
        assert forall|a: int, b: int| 0 <= a < b < before.push(x).len() implies (
        #[trigger] before.push(x)[a]).column@ != (#[trigger] before.push(x)[b]).column@ by {
            if b < before.len() {
                assert(before.push(x)[a] == before[a] && before.push(x)[b] == before[b]);
            } else {
                assert(before.push(x)[a] == before[a]);
            }
        }
    }
    kept.push(x);
    kept
}

/// The entries at some positions.
pub open spec fn picked(datasets: Seq<DatasetEntry>, at: Seq<usize>) -> Seq<DatasetEntry> {
    Seq::new(at.len(), |i: int| datasets[at[i] as int])
}

pub open spec fn positions_valid(datasets: Seq<DatasetEntry>, at: Seq<usize>) -> bool {
    forall|i: int| 0 <= i < at.len() ==> (#[trigger] at[i]) < datasets.len()
}

fn merge_summaries(datasets: &Vec<DatasetEntry>, at: &Vec<usize>) -> (list: Vec<Summary>)
    requires
        positions_valid(datasets@, at@),
    ensures
        columns_differ(list@),
        catalog::summary_map(list@) == merged(picked(datasets@, at@)),
        list@.len() == 0 <==> merged(picked(datasets@, at@)) == Map::<
            Seq<char>,
            Seq<Seq<char>>,
        >::empty(),
{
    let ghost all = picked(datasets@, at@);
    let mut list: Vec<Summary> = Vec::new();
    let mut i: usize = 0;
    assert(all.take(0) == Seq::<DatasetEntry>::empty());
    while i < at.len()
        invariant
            i <= at@.len(),
            positions_valid(datasets@, at@),
            all == picked(datasets@, at@),
            columns_differ(list@),
            catalog::summary_map(list@) == merged(all.take(i as int)),
        decreases at@.len() - i,
    {
        let entry = &datasets[at[i]];
        let ghost start = merged(all.take(i as int));
        assert(all.take(i + 1).drop_last() == all.take(i as int));
        assert(all.take(i + 1).last() == *entry);
        let mut j: usize = 0;
        assert(entry.summaries@.take(0) == Seq::<Summary>::empty());
        while j < entry.summaries.len()
            invariant
                j <= entry.summaries@.len(),
                columns_differ(list@),
                catalog::summary_map(list@) == merge_entry(start, entry.summaries@.take(j as int)),
            decreases entry.summaries@.len() - j,
        {
            assert(entry.summaries@.take(j + 1).drop_last() == entry.summaries@.take(j as int));
            list = add_summary(list, &entry.summaries[j]);
            j = j + 1;
        }
        assert(entry.summaries@.take(j as int) == entry.summaries@);
        i = i + 1;
    }
    assert(all.take(i as int) == all);
    proof {
        if list@.len() > 0 {
            lemma_map_lookup(list@, 0);
        }
    }
    list
}

/// Vocabularies as a JSON object.
pub open spec fn summaries_view(m: Map<Seq<char>, Seq<Seq<char>>>) -> JsonView {
    JsonView::Object(m.map_values(|values: Seq<Seq<char>>| json::text_array(values)))
}

fn summaries_json(list: &Vec<Summary>) -> (v: serde_json::Value)
    ensures
        json::json_of(v) == summaries_view(catalog::summary_map(list@)),
{
    let mut v = json_object();
    let mut i: usize = 0;
    let ghost f = |values: Seq<Seq<char>>| json::text_array(values);
    proof {
        assert(list@.take(0) == Seq::<Summary>::empty());
        assert(catalog::summary_map(list@.take(0)).map_values(f) =~= Map::<
            Seq<char>,
            JsonView,
        >::empty());
    }
    while i < list.len()
        invariant
            i <= list@.len(),
            f == (|values: Seq<Seq<char>>| json::text_array(values)),
            json::json_of(v) == summaries_view(catalog::summary_map(list@.take(i as int))),
        decreases list@.len() - i,
    {
        let ghost m = catalog::summary_map(list@.take(i as int));
        assert(list@.take(i + 1).drop_last() == list@.take(i as int));
        json_put(&mut v, list[i].column.as_str(), json_texts(&list[i].values));
        proof {
            let column = list@[i as int].column@;
            let values = text::texts(list@[i as int].values@);
            assert(m.insert(column, values).map_values(f) =~= m.map_values(f).insert(
                column,
                json::text_array(values),
            ));
        }
        i = i + 1;
    }
    assert(list@.take(i as int) == list@);
    v
}

// ---------------------------------------------------------------------------
// Collections
// ---------------------------------------------------------------------------

/// Why there are no documents.
#[derive(Debug, PartialEq)]
pub enum StacError {
    NoDatasets,
    /// The collection of that id holds nothing.
    EmptyCollection(String),
    /// A collection holds datasets of different kinds: its id, and the id of the
    /// first dataset that is not like the one before.
    MixedKinds(String, String),
}

impl StacError {
    pub open spec fn spec_text(&self) -> Seq<char> {
        match self {
            StacError::NoDatasets => "データセットが1件もありません"@,
            StacError::EmptyCollection(id) => id@ + " に1件も入っていない"@,
            StacError::MixedKinds(id, stray) => id@ + " に種別の違うものが混ざっている: "@ + stray@,
        }
    }

    pub fn to_string(&self) -> (text: String)
        ensures
            text@ == self.spec_text(),
    {
        match self {
            StacError::NoDatasets => "データセットが1件もありません".to_string(),
            StacError::EmptyCollection(id) => {
                let mut text = id.clone();
                text.append(" に1件も入っていない");
                text
            },
            StacError::MixedKinds(id, stray) => {
                let mut text = id.clone();
                text.append(" に種別の違うものが混ざっている: ");
                text.append(stray.as_str());
                text
            },
        }
    }
}

/// The area of two parts together, either of which may have none.
pub open spec fn area_union(a: Option<Bounds>, b: Option<Bounds>) -> Option<Bounds> {
    match (a, b) {
        (None, b) => b,
        (Some(a), None) => Some(a),
        (Some(a), Some(b)) => Some(a.spec_union(b)),
    }
}

/// The area that files cover together.
pub open spec fn area(entries: Seq<DatasetEntry>) -> Option<Bounds>
    decreases entries.len(),
{
    if entries.len() == 0 {
        None
    } else {
        area_union(area(entries.drop_last()), entries.last().bbox)
    }
}

/// Bounds without a NaN.
pub open spec fn sound(bbox: Option<Bounds>) -> bool {
    match bbox {
        Some(b) => !b.has_nan(),
        None => true,
    }
}

/// The area of a collection encloses that of each of its files.
pub proof fn law_area_encloses(entries: Seq<DatasetEntry>, i: int)
    requires
        0 <= i < entries.len(),
        entries[i].bbox is Some,
        forall|j: int| 0 <= j < entries.len() ==> sound((#[trigger] entries[j]).bbox),
    ensures
        area(entries) is Some,
        area(entries)->0.encloses(entries[i].bbox->0),
        !area(entries)->0.has_nan(),
    decreases entries.len(),
{
    let rest = entries.drop_last();
    let last = entries.last();
    assert(last == entries[entries.len() - 1]);
    assert forall|j: int| 0 <= j < rest.len() implies sound((#[trigger] rest[j]).bbox) by {
        assert(rest[j] == entries[j]);
    }
    lemma_area_sound(rest);
    if i < rest.len() {
        assert(rest[i] == entries[i]);
        law_area_encloses(rest, i);
    }
}

proof fn lemma_area_sound(entries: Seq<DatasetEntry>)
    requires
        forall|j: int| 0 <= j < entries.len() ==> sound((#[trigger] entries[j]).bbox),
    ensures
        sound(area(entries)),
    decreases entries.len(),
{
    if entries.len() > 0 {
        let rest = entries.drop_last();
        assert forall|j: int| 0 <= j < rest.len() implies sound((#[trigger] rest[j]).bbox) by {
            assert(rest[j] == entries[j]);
        }
        lemma_area_sound(rest);
        assert(sound(entries[entries.len() - 1].bbox));
    }
}

fn union_bbox(datasets: &Vec<DatasetEntry>, at: &Vec<usize>) -> (b: Option<Bounds>)
    requires
        positions_valid(datasets@, at@),
    ensures
        b == area(picked(datasets@, at@)),
{
    let ghost all = picked(datasets@, at@);
    let mut b: Option<Bounds> = None;
    let mut i: usize = 0;
    assert(all.take(0) == Seq::<DatasetEntry>::empty());
    while i < at.len()
        invariant
            i <= at@.len(),
            positions_valid(datasets@, at@),
            all == picked(datasets@, at@),
            b == area(all.take(i as int)),
        decreases at@.len() - i,
    {
        let entry = &datasets[at[i]];
        assert(all.take(i + 1).drop_last() == all.take(i as int));
        assert(all.take(i + 1).last() == *entry);
        b = match (b, entry.bbox) {
            (None, other) => other,
            (Some(a), None) => Some(a),
            (Some(a), Some(other)) => Some(a.union(&other)),
        };
        i = i + 1;
    }
    assert(all.take(i as int) == all);
    b
}

pub open spec fn nulls(n: nat) -> JsonView {
    JsonView::Array(Seq::new(n, |i: int| JsonView::Null))
}

fn nulls_json(n: usize) -> (v: serde_json::Value)
    ensures
        json::json_of(v) == nulls(n as nat),
{
    let mut items: Vec<serde_json::Value> = Vec::new();
    let mut i: usize = 0;
    while i < n
        invariant
            i <= n,
            items@.len() == i,
            forall|j: int| 0 <= j < i ==> json::json_of(#[trigger] items@[j]) == JsonView::Null,
        decreases n - i,
    {
        items.push(json_null());
        i = i + 1;
    }
    assert(json::views(items@) =~= Seq::new(n as nat, |i: int| JsonView::Null));
    json_array(items)
}

/// The spatial extent: the area as a whole, four nulls where there is none.
pub open spec fn spatial_view(bbox: Option<Bounds>) -> JsonView {
    JsonView::Array(
        seq![
            match bbox {
                Some(b) => geoparquet::bbox_view(b.numbers()),
                None => nulls(4),
            },
        ],
    )
}

pub open spec fn column_view(name: Seq<char>, data_type: Seq<char>) -> JsonView {
    JsonView::empty().with("name"@, JsonView::Text(name)).with("type"@, JsonView::Text(data_type))
}

pub open spec fn columns_view(columns: Seq<ColumnEntry>) -> JsonView {
    JsonView::Array(
        Seq::new(columns.len(), |i: int| column_view(columns[i].name@, columns[i].data_type@)),
    )
}

fn columns_json(columns: &Vec<ColumnEntry>) -> (v: serde_json::Value)
    ensures
        json::json_of(v) == columns_view(columns@),
{
    let mut items: Vec<serde_json::Value> = Vec::new();
    let mut i: usize = 0;
    while i < columns.len()
        invariant
            i <= columns@.len(),
            items@.len() == i,
            forall|j: int|
                0 <= j < i ==> json::json_of(#[trigger] items@[j]) == column_view(
                    columns@[j].name@,
                    columns@[j].data_type@,
                ),
        decreases columns@.len() - i,
    {
        let mut c = json_object();
        json_put(&mut c, "name", json_string(columns[i].name.as_str()));
        json_put(&mut c, "type", json_string(columns[i].data_type.as_str()));
        items.push(c);
        i = i + 1;
    }
    assert(json::views(items@) =~= Seq::new(
        columns@.len(),
        |i: int| column_view(columns@[i].name@, columns@[i].data_type@),
    ));
    json_array(items)
}

pub open spec fn provider_view(a: Attribution) -> JsonView {
    JsonView::empty().with("name"@, JsonView::Text(a.provider@)).with(
        "roles"@,
        JsonView::Array(seq![JsonView::Text("producer"@), JsonView::Text("licensor"@)]),
    ).with("url"@, JsonView::Text(a.url@))
}

fn provider_json(a: &Attribution) -> (v: serde_json::Value)
    ensures
        json::json_of(v) == provider_view(*a),
{
    let mut roles: Vec<serde_json::Value> = Vec::new();
    roles.push(json_string("producer"));
    roles.push(json_string("licensor"));
    assert(json::views(roles@) =~= seq![JsonView::Text("producer"@), JsonView::Text("licensor"@)]);
    let mut v = json_object();
    json_put(&mut v, "name", json_string(a.provider));
    json_put(&mut v, "roles", json_array(roles));
    json_put(&mut v, "url", json_string(a.url));
    v
}

pub open spec fn extent_view(bbox: Option<Bounds>) -> JsonView {
    JsonView::empty().with("spatial"@, JsonView::empty().with("bbox"@, spatial_view(bbox))).with(
        "temporal"@,
        JsonView::empty().with("interval"@, JsonView::Array(seq![nulls(2)])),
    )
}

fn extent_json(bbox: &Option<Bounds>) -> (v: serde_json::Value)
    ensures
        json::json_of(v) == extent_view(*bbox),
{
    let overall = match bbox {
        Some(b) => bbox_json(b),
        None => nulls_json(4),
    };
    let mut spatial = json_object();
    json_put(&mut spatial, "bbox", single(overall));
    let mut temporal = json_object();
    json_put(&mut temporal, "interval", single(nulls_json(2)));
    let mut v = json_object();
    json_put(&mut v, "spatial", spatial);
    json_put(&mut v, "temporal", temporal);
    v
}

pub open spec fn item_assets_view(columns: Seq<ColumnEntry>) -> JsonView {
    JsonView::empty().with(
        "data"@,
        JsonView::empty().with("type"@, JsonView::Text(PARQUET_MEDIA_TYPE@)).with(
            "roles"@,
            JsonView::Array(seq![JsonView::Text("data"@)]),
        ).with("table:columns"@, columns_view(columns)),
    )
}

fn item_assets_json(columns: &Vec<ColumnEntry>) -> (v: serde_json::Value)
    ensures
        json::json_of(v) == item_assets_view(columns@),
{
    let mut data = json_object();
    json_put(&mut data, "type", json_string(PARQUET_MEDIA_TYPE));
    json_put(&mut data, "roles", single(json_string("data")));
    json_put(&mut data, "table:columns", columns_json(columns));
    let mut v = json_object();
    json_put(&mut v, "data", data);
    v
}

pub open spec fn collection_links(id: Seq<char>, via: Seq<char>) -> Seq<JsonView> {
    seq![
        link_view("root"@, CATALOG_FILE@, JSON_MEDIA_TYPE@),
        link_view("parent"@, CATALOG_FILE@, JSON_MEDIA_TYPE@),
        link_view("self"@, collection_path(id), JSON_MEDIA_TYPE@),
        link_view("items"@, items_path(id), GEOJSON_MEDIA_TYPE@),
        via_view(via),
    ]
}

fn collection_links_json(id: &str, via: &str) -> (v: serde_json::Value)
    ensures
        json::json_of(v) == JsonView::Array(collection_links(id@, via@)),
{
    let file = collection_file(id);
    let items = items_file(id);
    let mut links: Vec<serde_json::Value> = Vec::new();
    links.push(link("root", CATALOG_FILE, JSON_MEDIA_TYPE));
    links.push(link("parent", CATALOG_FILE, JSON_MEDIA_TYPE));
    links.push(link("self", file.as_str(), JSON_MEDIA_TYPE));
    links.push(link("items", items.as_str(), GEOJSON_MEDIA_TYPE));
    links.push(via_link(via));
    assert(json::views(links@) =~= collection_links(id@, via@));
    json_array(links)
}

/// The members that every collection has.
pub open spec fn collection_base(
    id: Seq<char>,
    first: DatasetEntry,
    bbox: Option<Bounds>,
) -> JsonView {
    JsonView::empty().with("type"@, JsonView::Text("Collection"@)).with(
        "stac_version"@,
        JsonView::Text(STAC_VERSION@),
    ).with("stac_extensions"@, JsonView::Array(seq![JsonView::Text(TABLE_EXTENSION@)])).with(
        "id"@,
        JsonView::Text(id),
    ).with("title"@, JsonView::Text(first.title@)).with(
        "description"@,
        JsonView::Text(first.description@),
    ).with("license"@, JsonView::Text(first.attribution.license@)).with(
        "duck:attribution"@,
        JsonView::Text(first.attribution.text@),
    ).with("duck:attribution_url"@, JsonView::Text(first.attribution.url@)).with(
        "duck:kind"@,
        JsonView::Text(first.kind.spec_name()),
    ).with("providers"@, JsonView::Array(seq![provider_view(first.attribution)])).with(
        "extent"@,
        extent_view(bbox),
    ).with("item_assets"@, item_assets_view(first.columns@)).with(
        "links"@,
        JsonView::Array(collection_links(id, first.collection_via@)),
    )
}

/// The vocabularies, where there are any.
pub open spec fn with_summaries(v: JsonView, m: Map<Seq<char>, Seq<Seq<char>>>) -> JsonView {
    if m == Map::<Seq<char>, Seq<Seq<char>>>::empty() {
        v
    } else {
        v.with("summaries"@, summaries_view(m))
    }
}

/// The digits of grid square codes, where the data is a grid.
pub open spec fn with_mesh_digits(v: JsonView, digits: Option<u8>) -> JsonView {
    match digits {
        Some(d) => v.with("duck:mesh_digits"@, JsonView::Int(d as int)),
        None => v,
    }
}

/// The STAC collection of files that belong together.
pub open spec fn collection_view(id: Seq<char>, entries: Seq<DatasetEntry>) -> JsonView {
    with_mesh_digits(
        with_summaries(collection_base(id, entries[0], area(entries)), merged(entries)),
        entries[0].mesh_digits,
    )
}

/// Every entry is of the kind of the first.
pub open spec fn one_kind(entries: Seq<DatasetEntry>) -> bool {
    forall|i: int| 0 <= i < entries.len() ==> (#[trigger] entries[i]).kind == entries[0].kind
}

/// The first entry that is not of the kind of those before it has that id.
pub open spec fn first_stray(entries: Seq<DatasetEntry>, stray: Seq<char>) -> bool {
    exists|k: int|
        0 <= k < entries.len() && (#[trigger] entries[k]).kind != entries[0].kind && entries[k].id@
            == stray && forall|j: int|
            0 <= j < k ==> (#[trigger] entries[j]).kind == entries[0].kind
}

fn collection(id: &str, datasets: &Vec<DatasetEntry>, at: &Vec<usize>) -> (r: Result<
    serde_json::Value,
    StacError,
>)
    requires
        positions_valid(datasets@, at@),
    ensures
        ({
            let entries = picked(datasets@, at@);
            match r {
                Ok(v) => entries.len() > 0 && one_kind(entries) && json::json_of(v)
                    == collection_view(id@, entries),
                Err(StacError::EmptyCollection(of)) => of@ == id@ && entries.len() == 0,
                Err(StacError::MixedKinds(of, stray)) => of@ == id@ && entries.len() > 0
                    && !one_kind(entries) && first_stray(entries, stray@),
                Err(StacError::NoDatasets) => false,
            }
        }),
{
    let ghost entries = picked(datasets@, at@);
    if at.len() == 0 {
        return Err(StacError::EmptyCollection(id.to_string()));
    }
    let first = &datasets[at[0]];
    assert(*first == entries[0]);
    let mut i: usize = 0;
    while i < at.len()
        invariant
            i <= at@.len(),
            at@.len() > 0,
            positions_valid(datasets@, at@),
            entries == picked(datasets@, at@),
            *first == entries[0],
            forall|j: int| 0 <= j < i ==> (#[trigger] entries[j]).kind == entries[0].kind,
        decreases at@.len() - i,
    {
        assert(entries[i as int] == datasets@[at@[i as int] as int]);
        if datasets[at[i]].kind != first.kind {
            return Err(StacError::MixedKinds(id.to_string(), datasets[at[i]].id.clone()));
        }
        i = i + 1;
    }
    let bbox = union_bbox(datasets, at);
    let summaries = merge_summaries(datasets, at);
    let mut v = json_object();
    json_put(&mut v, "type", json_string("Collection"));
    json_put(&mut v, "stac_version", json_string(STAC_VERSION));
    json_put(&mut v, "stac_extensions", single(json_string(TABLE_EXTENSION)));
    json_put(&mut v, "id", json_string(id));
    json_put(&mut v, "title", json_string(first.title));
    json_put(&mut v, "description", json_string(first.description));
    json_put(&mut v, "license", json_string(first.attribution.license));
    json_put(&mut v, "duck:attribution", json_string(first.attribution.text));
    json_put(&mut v, "duck:attribution_url", json_string(first.attribution.url));
    json_put(&mut v, "duck:kind", json_string(first.kind.name()));
    json_put(&mut v, "providers", single(provider_json(&first.attribution)));
    json_put(&mut v, "extent", extent_json(&bbox));
    json_put(&mut v, "item_assets", item_assets_json(&first.columns));
    json_put(&mut v, "links", collection_links_json(id, first.collection_via));
    assert(json::json_of(v) == collection_base(id@, entries[0], area(entries)));
    if summaries.len() > 0 {
        json_put(&mut v, "summaries", summaries_json(&summaries));
    }
    match first.mesh_digits {
        Some(digits) => {
            json_put(&mut v, "duck:mesh_digits", json_int(digits as i64));
        },
        None => {},
    }
    Ok(v)
}

// ---------------------------------------------------------------------------
// All documents
// ---------------------------------------------------------------------------

/// The entries of a collection, in order.
pub open spec fn group(datasets: Seq<DatasetEntry>, id: Seq<char>) -> Seq<DatasetEntry>
    decreases datasets.len(),
{
    if datasets.len() == 0 {
        Seq::empty()
    } else if datasets.last().collection@ == id {
        group(datasets.drop_last(), id).push(datasets.last())
    } else {
        group(datasets.drop_last(), id)
    }
}

/// `datasets` has a file in that collection.
pub open spec fn has_collection(datasets: Seq<DatasetEntry>, id: Seq<char>) -> bool {
    exists|i: int| 0 <= i < datasets.len() && (#[trigger] datasets[i]).collection@ == id
}

pub open spec fn ids_rising(ids: Seq<Seq<char>>) -> bool {
    forall|i: int, j: int|
        0 <= i < j < ids.len() ==> text::lex_less(#[trigger] ids[i], #[trigger] ids[j])
}

/// `ids` lists the collections of `datasets` in order.
pub open spec fn is_id_list(datasets: Seq<DatasetEntry>, ids: Seq<Seq<char>>) -> bool {
    &&& ids_rising(ids)
    &&& forall|id: Seq<char>| #[trigger] ids.contains(id) <==> has_collection(datasets, id)
}

/// Some collection holds datasets of different kinds.
pub open spec fn mixed(datasets: Seq<DatasetEntry>) -> bool {
    exists|i: int, j: int|
        0 <= i < datasets.len() && 0 <= j < datasets.len() && (#[trigger] datasets[i]).collection@
            == (#[trigger] datasets[j]).collection@ && datasets[i].kind != datasets[j].kind
}

/// The first collection, in the order of ids, whose files are not of one kind.
pub open spec fn first_mixed(datasets: Seq<DatasetEntry>, id: Seq<char>) -> bool {
    &&& has_collection(datasets, id)
    &&& !uniform(datasets, id)
    &&& forall|other: Seq<char>| #[trigger]
        has_collection(datasets, other) && text::lex_less(other, id) ==> uniform(datasets, other)
}

pub open spec fn items_view(entries: Seq<DatasetEntry>) -> Seq<JsonView> {
    Seq::new(entries.len(), |i: int| item_view(entries[i]))
}

/// The file with all items of a collection.
pub open spec fn item_collection_view(id: Seq<char>, entries: Seq<DatasetEntry>) -> JsonView {
    JsonView::empty().with("type"@, JsonView::Text("FeatureCollection"@)).with(
        "features"@,
        JsonView::Array(items_view(entries)),
    ).with(
        "links"@,
        JsonView::Array(
            seq![
                link_view("root"@, CATALOG_FILE@, JSON_MEDIA_TYPE@),
                link_view("collection"@, collection_path(id), JSON_MEDIA_TYPE@),
            ],
        ),
    )
}

pub open spec fn child_view(id: Seq<char>, title: Seq<char>) -> JsonView {
    link_view("child"@, collection_path(id), JSON_MEDIA_TYPE@).with("title"@, JsonView::Text(title))
}

pub open spec fn child_views(datasets: Seq<DatasetEntry>, ids: Seq<Seq<char>>) -> Seq<JsonView> {
    Seq::new(ids.len(), |i: int| child_view(ids[i], group(datasets, ids[i])[0].title@))
}

/// The catalog itself, with a link to each collection.
pub open spec fn catalog_view(datasets: Seq<DatasetEntry>, ids: Seq<Seq<char>>) -> JsonView {
    JsonView::empty().with("type"@, JsonView::Text("Catalog"@)).with(
        "stac_version"@,
        JsonView::Text(STAC_VERSION@),
    ).with("id"@, JsonView::Text(CATALOG_ID@)).with("title"@, JsonView::Text(CATALOG_TITLE@)).with(
        "description"@,
        JsonView::Text(CATALOG_DESCRIPTION@),
    ).with(
        "links"@,
        JsonView::Array(
            seq![
                link_view("root"@, CATALOG_FILE@, JSON_MEDIA_TYPE@),
                link_view("self"@, CATALOG_FILE@, JSON_MEDIA_TYPE@),
            ] + child_views(datasets, ids),
        ),
    )
}

/// The documents of the collections, two for each.
pub open spec fn collection_documents(datasets: Seq<DatasetEntry>, ids: Seq<Seq<char>>) -> Seq<
    (Seq<char>, JsonView),
>
    decreases ids.len(),
{
    if ids.len() == 0 {
        Seq::empty()
    } else {
        let id = ids.last();
        let entries = group(datasets, id);
        collection_documents(datasets, ids.drop_last()).push(
            (collection_path(id), collection_view(id, entries)),
        ).push((items_path(id), item_collection_view(id, entries)))
    }
}

/// All documents: those of the collections, then the catalog.
pub open spec fn all_documents(datasets: Seq<DatasetEntry>, ids: Seq<Seq<char>>) -> Seq<
    (Seq<char>, JsonView),
> {
    collection_documents(datasets, ids).push((CATALOG_FILE@, catalog_view(datasets, ids)))
}

fn positions(datasets: &Vec<DatasetEntry>, id: &str) -> (at: Vec<usize>)
    ensures
        positions_valid(datasets@, at@),
        picked(datasets@, at@) == group(datasets@, id@),
        forall|i: int|
            0 <= i < datasets@.len() && (#[trigger] datasets@[i]).collection@ == id@
                ==> at@.contains(i as usize),
        forall|k: int|
            0 <= k < at@.len() ==> datasets@[(#[trigger] at@[k]) as int].collection@ == id@,
{
    let mut at: Vec<usize> = Vec::new();
    let mut i: usize = 0;
    assert(datasets@.take(0) == Seq::<DatasetEntry>::empty());
    assert(picked(datasets@, at@) =~= group(datasets@.take(0), id@));
    while i < datasets.len()
        invariant
            i <= datasets@.len(),
            positions_valid(datasets@, at@),
            picked(datasets@, at@) == group(datasets@.take(i as int), id@),
            forall|j: int|
                0 <= j < i && (#[trigger] datasets@[j]).collection@ == id@ ==> at@.contains(
                    j as usize,
                ),
            forall|k: int|
                0 <= k < at@.len() ==> datasets@[(#[trigger] at@[k]) as int].collection@ == id@,
        decreases datasets@.len() - i,
    {
        let ghost before = at@;
        assert(datasets@.take(i + 1).drop_last() == datasets@.take(i as int));
        assert(datasets@.take(i + 1).last() == datasets@[i as int]);
        if same_text(datasets[i].collection, id) {
            at.push(i);
            proof {
                assert(picked(datasets@, at@) =~= picked(datasets@, before).push(
                    datasets@[i as int],
                ));
                assert forall|j: int|
                    0 <= j < i + 1 && (#[trigger] datasets@[j]).collection@
                        == id@ implies at@.contains(j as usize) by {
                    if j < i {
                        assert(before.contains(j as usize));
                        let k = choose|k: int| 0 <= k < before.len() && before[k] == j as usize;
                        assert(at@[k] == j as usize);
                    } else {
                        assert(at@[before.len() as int] == j as usize);
                    }
                }
            }
        }
        i = i + 1;
    }
    assert(datasets@.take(i as int) == datasets@);
    at
}

/// Adds an id in its place unless it is there.
fn add_id(ids: &mut Vec<String>, id: &str)
    requires
        ids_rising(text::texts(old(ids)@)),
    ensures
        ids_rising(text::texts(final(ids)@)),
        forall|v: Seq<char>| #[trigger]
            text::texts(final(ids)@).contains(v) <==> text::texts(old(ids)@).contains(v) || v
                == id@,
{
    let ghost before = text::texts(ids@);
    let mut i: usize = 0;
    while i < ids.len() && text_less(ids[i].as_str(), id)
        invariant
            i <= ids@.len(),
            ids@ == old(ids)@,
            before == text::texts(ids@),
            ids_rising(before),
            forall|k: int| 0 <= k < i ==> text::lex_less(#[trigger] before[k], id@),
        decreases ids@.len() - i,
    {
        i = i + 1;
    }
    if i < ids.len() && same_text(ids[i].as_str(), id) {
        assert(before[i as int] == id@);
        return;
    }
    ids.insert(i, id.to_string());
    proof {
        let after = text::texts(ids@);
        assert(after =~= before.insert(i as int, id@));
        if i < before.len() {
            text::lemma_lex_total(before[i as int], id@);
        }
        assert forall|a: int, b: int| 0 <= a < b < after.len() implies text::lex_less(
            #[trigger] after[a],
            #[trigger] after[b],
        ) by {
            if a == i {
                assert(after[b] == before[b - 1]);
                if b - 1 > i {
                    text::lemma_lex_transitive(id@, before[i as int], before[b - 1]);
                }
            } else if b == i {
                assert(after[a] == before[a]);
            } else {
                let x = if a < i {
                    a
                } else {
                    a - 1
                };
                let y = if b < i {
                    b
                } else {
                    b - 1
                };
                assert(after[a] == before[x] && after[b] == before[y]);
            }
        }
        assert forall|v: Seq<char>| #[trigger] after.contains(v) <==> before.contains(v) || v
            == id@ by {
            if before.contains(v) {
                let k = choose|k: int| 0 <= k < before.len() && before[k] == v;
                if k < i {
                    assert(after[k] == v);
                } else {
                    assert(after[k + 1] == v);
                }
            }
            if v == id@ {
                assert(after[i as int] == v);
            }
            if after.contains(v) {
                let k = choose|k: int| 0 <= k < after.len() && after[k] == v;
                if k < i {
                    assert(before[k] == v);
                } else if k > i {
                    assert(before[k - 1] == v);
                }
            }
        }
    }
}

fn collection_ids(datasets: &Vec<DatasetEntry>) -> (ids: Vec<String>)
    ensures
        is_id_list(datasets@, text::texts(ids@)),
{
    let mut ids: Vec<String> = Vec::new();
    let mut i: usize = 0;
    while i < datasets.len()
        invariant
            i <= datasets@.len(),
            is_id_list(datasets@.take(i as int), text::texts(ids@)),
        decreases datasets@.len() - i,
    {
        let ghost before = text::texts(ids@);
        add_id(&mut ids, datasets[i].collection);
        proof {
            let now = datasets@.take(i + 1);
            let earlier = datasets@.take(i as int);
            assert forall|id: Seq<char>| #[trigger] text::texts(ids@).contains(
                id,
            ) <==> has_collection(now, id) by {
                if has_collection(earlier, id) {
                    let k = choose|k: int|
                        0 <= k < earlier.len() && (#[trigger] earlier[k]).collection@ == id;
                    assert(now[k].collection@ == id);
                }
                if id == datasets@[i as int].collection@ {
                    assert(now[i as int].collection@ == id);
                }
                if has_collection(now, id) {
                    let k = choose|k: int|
                        0 <= k < now.len() && (#[trigger] now[k]).collection@ == id;
                    if k < i {
                        assert(earlier[k].collection@ == id);
                    }
                }
                assert(before.contains(id) <==> has_collection(earlier, id));
            }
        }
        i = i + 1;
    }
    assert(datasets@.take(i as int) == datasets@);
    ids
}

fn item_collection(id: &str, datasets: &Vec<DatasetEntry>, at: &Vec<usize>) -> (v:
    serde_json::Value)
    requires
        positions_valid(datasets@, at@),
    ensures
        json::json_of(v) == item_collection_view(id@, picked(datasets@, at@)),
{
    let ghost entries = picked(datasets@, at@);
    let mut features: Vec<serde_json::Value> = Vec::new();
    let mut i: usize = 0;
    while i < at.len()
        invariant
            i <= at@.len(),
            positions_valid(datasets@, at@),
            entries == picked(datasets@, at@),
            features@.len() == i,
            forall|j: int|
                0 <= j < i ==> json::json_of(#[trigger] features@[j]) == item_view(entries[j]),
        decreases at@.len() - i,
    {
        features.push(item(&datasets[at[i]]));
        i = i + 1;
    }
    assert(json::views(features@) =~= items_view(entries));
    let file = collection_file(id);
    let mut links: Vec<serde_json::Value> = Vec::new();
    links.push(link("root", CATALOG_FILE, JSON_MEDIA_TYPE));
    links.push(link("collection", file.as_str(), JSON_MEDIA_TYPE));
    assert(json::views(links@) =~= seq![
        link_view("root"@, CATALOG_FILE@, JSON_MEDIA_TYPE@),
        link_view("collection"@, collection_path(id@), JSON_MEDIA_TYPE@),
    ]);
    let mut v = json_object();
    json_put(&mut v, "type", json_string("FeatureCollection"));
    json_put(&mut v, "features", json_array(features));
    json_put(&mut v, "links", json_array(links));
    v
}

/// All files of a collection are of one kind.
pub open spec fn uniform(datasets: Seq<DatasetEntry>, id: Seq<char>) -> bool {
    forall|i: int, j: int|
        0 <= i < datasets.len() && 0 <= j < datasets.len() && (#[trigger] datasets[i]).collection@
            == id && (#[trigger] datasets[j]).collection@ == id ==> datasets[i].kind
            == datasets[j].kind
}

proof fn lemma_uniform(datasets: Seq<DatasetEntry>, at: Seq<usize>, id: Seq<char>)
    requires
        positions_valid(datasets, at),
        datasets.len() <= usize::MAX,
        one_kind(picked(datasets, at)),
        forall|i: int|
            0 <= i < datasets.len() && (#[trigger] datasets[i]).collection@ == id ==> at.contains(
                i as usize,
            ),
    ensures
        uniform(datasets, id),
{
    let entries = picked(datasets, at);
    assert forall|i: int, j: int|
        0 <= i < datasets.len() && 0 <= j < datasets.len() && (#[trigger] datasets[i]).collection@
            == id && (#[trigger] datasets[j]).collection@ == id implies datasets[i].kind
        == datasets[j].kind by {
        let a = choose|a: int| 0 <= a < at.len() && at[a] == i as usize;
        let b = choose|b: int| 0 <= b < at.len() && at[b] == j as usize;
        assert(entries[a] == datasets[i] && entries[b] == datasets[j]);
        assert(entries[a].kind == entries[0].kind && entries[b].kind == entries[0].kind);
    }
}

proof fn lemma_mixed(datasets: Seq<DatasetEntry>, at: Seq<usize>, id: Seq<char>)
    requires
        positions_valid(datasets, at),
        !one_kind(picked(datasets, at)),
        at.len() > 0,
        forall|k: int|
            0 <= k < at.len() ==> datasets[(#[trigger] at[k]) as int].collection@ == id,
    ensures
        mixed(datasets),
        !uniform(datasets, id),
        has_collection(datasets, id),
{
    let entries = picked(datasets, at);
    let k = choose|k: int|
        0 <= k < entries.len() && (#[trigger] entries[k]).kind != entries[0].kind;
    let i = at[k] as int;
    let j = at[0] as int;
    assert(datasets[i].collection@ == datasets[j].collection@);
    assert(datasets[i].kind != datasets[j].kind);
}

/// Turns the entries of a catalog into STAC documents. Collections come in the
/// order of their ids, so that the documents do not change from one time to the
/// next.
pub fn build(datasets: &Vec<DatasetEntry>) -> (r: Result<Vec<Document>, StacError>)
    ensures
        match r {
            Ok(documents) => datasets@.len() > 0 && !mixed(datasets@) && exists|
                ids: Seq<Seq<char>>,
            | #[trigger]
                is_id_list(datasets@, ids) && documents_view(documents@) == all_documents(
                    datasets@,
                    ids,
                ),
            Err(StacError::NoDatasets) => datasets@.len() == 0,
            Err(StacError::MixedKinds(id, stray)) => mixed(datasets@) && first_mixed(
                datasets@,
                id@,
            ) && first_stray(group(datasets@, id@), stray@),
            Err(StacError::EmptyCollection(_)) => false,
        },
{
    if datasets.len() == 0 {
        return Err(StacError::NoDatasets);
    }
    let ids = collection_ids(datasets);
    let ghost names = text::texts(ids@);
    let mut documents: Vec<Document> = Vec::new();
    let mut links: Vec<serde_json::Value> = Vec::new();
    links.push(link("root", CATALOG_FILE, JSON_MEDIA_TYPE));
    links.push(link("self", CATALOG_FILE, JSON_MEDIA_TYPE));
    let ghost fixed = json::views(links@);
    assert(fixed =~= seq![
        link_view("root"@, CATALOG_FILE@, JSON_MEDIA_TYPE@),
        link_view("self"@, CATALOG_FILE@, JSON_MEDIA_TYPE@),
    ]);
    let mut i: usize = 0;
    proof {
        assert(names.take(0) == Seq::<Seq<char>>::empty());
        assert(documents_view(documents@) =~= collection_documents(datasets@, names.take(0)));
        assert(json::views(links@) =~= fixed + child_views(datasets@, names.take(0)));
    }
    while i < ids.len()
        invariant
            i <= ids@.len(),
            0 < datasets@.len() <= usize::MAX,
            names == text::texts(ids@),
            is_id_list(datasets@, names),
            documents_view(documents@) == collection_documents(datasets@, names.take(i as int)),
            json::views(links@) == fixed + child_views(datasets@, names.take(i as int)),
            forall|k: int| 0 <= k < i ==> uniform(datasets@, #[trigger] names[k]),
        decreases ids@.len() - i,
    {
        let id = ids[i].as_str();
        let ghost before = documents@;
        let ghost links_before = json::views(links@);
        assert(names[i as int] == id@);
        let at = positions(datasets, id);
        proof {
            assert(names.contains(id@));
            let k = choose|k: int|
                0 <= k < datasets@.len() && (#[trigger] datasets@[k]).collection@ == id@;
            assert(at@.contains(k as usize));
        }
        let body = match collection(id, datasets, &at) {
            Ok(v) => v,
            Err(e) => {
                proof {
                    lemma_mixed(datasets@, at@, id@);
                    assert forall|other: Seq<char>| #[trigger]
                        has_collection(datasets@, other) && text::lex_less(
                            other,
                            id@,
                        ) implies uniform(datasets@, other) by {
                        assert(names.contains(other));
                        let k = choose|k: int| 0 <= k < names.len() && names[k] == other;
                        text::lemma_lex_irreflexive(id@);
                        if k > i {
                            text::lemma_lex_transitive(other, id@, other);
                            text::lemma_lex_irreflexive(other);
                        }
                        assert(k < i);
                    }
                }
                return Err(e);
            },
        };
        proof {
            lemma_uniform(datasets@, at@, id@);
        }
        let title = datasets[at[0]].title;
        let file = collection_file(id);
        let mut child = link("child", file.as_str(), JSON_MEDIA_TYPE);
        json_put(&mut child, "title", json_string(title));
        let ghost child_json = json::json_of(child);
        links.push(child);
        documents.push(Document { path: file, body });
        documents.push(
            Document { path: items_file(id), body: item_collection(id, datasets, &at) },
        );
        proof {
            let now = names.take(i + 1);
            assert(now.drop_last() == names.take(i as int));
            assert(now.last() == id@);
            let entries = group(datasets@, id@);
            assert(documents_view(documents@) =~= documents_view(before).push(
                (collection_path(id@), collection_view(id@, entries)),
            ).push((items_path(id@), item_collection_view(id@, entries))));
            assert(picked(datasets@, at@)[0] == datasets@[at@[0] as int]);
            assert(child_json == child_view(id@, entries[0].title@));
            assert(json::views(links@) =~= links_before.push(child_json));
            assert(child_views(datasets@, now) =~= child_views(datasets@, names.take(i as int)).push(
                child_json,
            ));
            assert(json::views(links@) =~= fixed + child_views(datasets@, now));
        }
        i = i + 1;
    }
    assert(names.take(i as int) == names);
    proof {
        if mixed(datasets@) {
            let (a, b) = choose|a: int, b: int|
                0 <= a < datasets@.len() && 0 <= b < datasets@.len() && (
                #[trigger] datasets@[a]).collection@ == (#[trigger] datasets@[b]).collection@
                    && datasets@[a].kind != datasets@[b].kind;
            let id = datasets@[a].collection@;
            assert(has_collection(datasets@, id));
            assert(names.contains(id));
            let k = choose|k: int| 0 <= k < names.len() && names[k] == id;
            assert(uniform(datasets@, names[k]));
        }
    }
    let mut body = json_object();
    json_put(&mut body, "type", json_string("Catalog"));
    json_put(&mut body, "stac_version", json_string(STAC_VERSION));
    json_put(&mut body, "id", json_string(CATALOG_ID));
    json_put(&mut body, "title", json_string(CATALOG_TITLE));
    json_put(&mut body, "description", json_string(CATALOG_DESCRIPTION));
    json_put(&mut body, "links", json_array(links));
    let ghost before = documents@;
    documents.push(Document { path: CATALOG_FILE.to_string(), body });
    assert(documents_view(documents@) =~= documents_view(before).push(
        (CATALOG_FILE@, catalog_view(datasets@, names)),
    ));
    Ok(documents)
}

/// The list of collections, and with it every document, is fixed by the entries.
pub proof fn law_ids_are_unique(
    datasets: Seq<DatasetEntry>,
    a: Seq<Seq<char>>,
    b: Seq<Seq<char>>,
)
    requires
        is_id_list(datasets, a),
        is_id_list(datasets, b),
    ensures
        a == b,
{
    lemma_rising_prefix(datasets, a, b, a.len() as int);
    lemma_rising_prefix(datasets, b, a, b.len() as int);
    assert(a =~= b);
}

proof fn lemma_rising_prefix(
    datasets: Seq<DatasetEntry>,
    a: Seq<Seq<char>>,
    b: Seq<Seq<char>>,
    n: int,
)
    requires
        is_id_list(datasets, a),
        is_id_list(datasets, b),
        0 <= n <= a.len(),
    ensures
        n <= b.len(),
        forall|k: int| 0 <= k < n ==> a[k] == b[k],
    decreases n,
{
    if n > 0 {
        lemma_rising_prefix(datasets, a, b, n - 1);
        let k = n - 1;
        assert(a.contains(a[k]));
        assert(b.contains(a[k]));
        let m = choose|m: int| 0 <= m < b.len() && b[m] == a[k];
        if m < k {
            assert(a[m] == b[m]);
            assert(text::lex_less(a[m], a[k]));
            text::lemma_lex_irreflexive(a[k]);
        } else if m > k {
            assert(b.contains(b[k]));
            assert(a.contains(b[k]));
            let l = choose|l: int| 0 <= l < a.len() && a[l] == b[k];
            assert(text::lex_less(b[k], b[m]));
            if l < k {
                assert(a[l] == b[l]);
                assert(text::lex_less(b[l], b[k]));
                text::lemma_lex_irreflexive(b[k]);
            } else if l > k {
                assert(text::lex_less(a[k], a[l]));
                text::lemma_lex_transitive(a[k], a[l], a[k]);
                text::lemma_lex_irreflexive(a[k]);
            } else {
                text::lemma_lex_irreflexive(a[k]);
            }
        }
    }
}

/// There are two documents for each collection, and the catalog.
pub proof fn law_number_of_documents(datasets: Seq<DatasetEntry>, ids: Seq<Seq<char>>)
    ensures
        all_documents(datasets, ids).len() == 2 * ids.len() + 1,
        all_documents(datasets, ids).last().0 == CATALOG_FILE@,
    decreases ids.len(),
{
    if ids.len() > 0 {
        law_number_of_documents(datasets, ids.drop_last());
    }
}

/// An entry that goes by the table of datasets.
pub open spec fn by_the_table(entry: DatasetEntry) -> bool {
    exists|k: int|
        0 <= k < crate::datasets::spec_descriptions().len() && entry.kind
            == (#[trigger] crate::datasets::spec_descriptions()[k]).1.kind && entry.collection
            == crate::datasets::spec_descriptions()[k].1.collection
}

/// Entries that go by the table of datasets never mix kinds in a collection.
pub proof fn law_table_entries_never_mix(datasets: Seq<DatasetEntry>)
    requires
        forall|i: int| 0 <= i < datasets.len() ==> by_the_table(#[trigger] datasets[i]),
    ensures
        !mixed(datasets),
{
    if mixed(datasets) {
        let (i, j) = choose|i: int, j: int|
            0 <= i < datasets.len() && 0 <= j < datasets.len() && (
            #[trigger] datasets[i]).collection@ == (#[trigger] datasets[j]).collection@
                && datasets[i].kind != datasets[j].kind;
        assert(by_the_table(datasets[i]) && by_the_table(datasets[j]));
        let table = crate::datasets::spec_descriptions();
        let a = choose|a: int|
            0 <= a < table.len() && datasets[i].kind == (#[trigger] table[a]).1.kind
                && datasets[i].collection == table[a].1.collection;
        let b = choose|b: int|
            0 <= b < table.len() && datasets[j].kind == (#[trigger] table[b]).1.kind
                && datasets[j].collection == table[b].1.collection;
        crate::datasets::law_collections_hold_one_kind(a, b);
    }
}

/// Merging keeps what a column had, in its place, and adds every new value.
pub proof fn law_merging_keeps_order(held: Seq<Seq<char>>, values: Seq<Seq<char>>)
    ensures
        held.len() <= merge_values(held, values).len(),
        merge_values(held, values).take(held.len() as int) == held,
        forall|v: Seq<char>| #[trigger]
            merge_values(held, values).contains(v) <==> held.contains(v) || values.contains(v),
    decreases values.len(),
{
    let out = merge_values(held, values);
    if values.len() == 0 {
        assert(out.take(held.len() as int) =~= held);
    } else {
        let rest = merge_values(held, values.drop_last());
        law_merging_keeps_order(held, values.drop_last());
        assert(out.take(held.len() as int) =~= rest.take(held.len() as int));
        assert forall|v: Seq<char>| #[trigger] out.contains(v) <==> held.contains(v)
            || values.contains(v) by {
            assert(rest.contains(v) <==> held.contains(v) || values.drop_last().contains(v));
            if values.drop_last().contains(v) {
                let k = choose|k: int|
                    0 <= k < values.drop_last().len() && values.drop_last()[k] == v;
                assert(values[k] == v);
            }
            if values.contains(v) {
                let k = choose|k: int| 0 <= k < values.len() && values[k] == v;
                if k < values.len() - 1 {
                    assert(values.drop_last()[k] == v);
                }
            }
            if values.last() == v {
                assert(values[values.len() - 1] == v);
            }
            if rest.contains(v) {
                let k = choose|k: int| 0 <= k < rest.len() && rest[k] == v;
                assert(out[k] == v);
            }
            if out.contains(v) {
                let k = choose|k: int| 0 <= k < out.len() && out[k] == v;
                if k < rest.len() {
                    assert(rest[k] == v);
                } else {
                    assert(v == values.last());
                }
            }
            if v == values.last() && !rest.contains(v) {
                assert(out[rest.len() as int] == v);
            }
        }
    }
}

// ---------------------------------------------------------------------------
// What the documents hold together
// ---------------------------------------------------------------------------

/// The links that a document or an item shows.
pub open spec fn links_of(body: JsonView) -> Seq<JsonView> {
    match body.member("links"@) {
        Some(JsonView::Array(links)) => links,
        _ => Seq::empty(),
    }
}

/// The items that a document holds.
pub open spec fn features_of(body: JsonView) -> Seq<JsonView> {
    match body.member("features"@) {
        Some(JsonView::Array(features)) => features,
        _ => Seq::empty(),
    }
}

/// A link leads to the path of one of the documents, unless it names a source.
pub open spec fn link_holds(documents: Seq<(Seq<char>, JsonView)>, link: JsonView) -> bool {
    ||| link.member("rel"@) == Some(JsonView::Text("via"@))
    ||| exists|i: int|
        0 <= i < documents.len() && link.member("href"@) == Some(
            JsonView::Text((#[trigger] documents[i]).0),
        )
}

proof fn lemma_places(datasets: Seq<DatasetEntry>, ids: Seq<Seq<char>>, i: int)
    requires
        0 <= i < ids.len(),
    ensures
        ({
            let documents = all_documents(datasets, ids);
            let entries = group(datasets, ids[i]);
            &&& documents.len() == 2 * ids.len() + 1
            &&& documents[2 * i] == (
                collection_path(ids[i]),
                collection_view(ids[i], entries),
            )
            &&& documents[2 * i + 1] == (
                items_path(ids[i]),
                item_collection_view(ids[i], entries),
            )
        }),
    decreases ids.len(),
{
    law_number_of_documents(datasets, ids);
    let rest = ids.drop_last();
    law_number_of_documents(datasets, rest);
    assert(collection_documents(datasets, rest).len() == 2 * rest.len());
    if i < rest.len() {
        lemma_places(datasets, rest, i);
        assert(rest[i] == ids[i]);
        assert(all_documents(datasets, rest)[2 * i] == collection_documents(datasets, rest)[2 * i]);
        assert(all_documents(datasets, rest)[2 * i + 1] == collection_documents(
            datasets,
            rest,
        )[2 * i + 1]);
    }
}

/// Names of members that differ.
proof fn lemma_names()
    ensures
        "rel"@ != "href"@,
        "rel"@ != "type"@,
        "rel"@ != "title"@,
        "href"@ != "type"@,
        "href"@ != "title"@,
        "links"@ != "summaries"@,
        "links"@ != "duck:mesh_digits"@,
        "links"@ != "features"@,
{
    reveal_strlit("rel");
    reveal_strlit("href");
    reveal_strlit("type");
    reveal_strlit("title");
    reveal_strlit("links");
    reveal_strlit("summaries");
    reveal_strlit("duck:mesh_digits");
    reveal_strlit("features");
    assert("rel"@.len() == 3 && "href"@.len() == 4 && "type"@.len() == 4 && "title"@.len() == 5);
    assert("links"@.len() == 5 && "summaries"@.len() == 9 && "features"@.len() == 8);
    assert("duck:mesh_digits"@.len() == 16);
    assert("href"@[0] != "type"@[0]);
}

proof fn lemma_link_members(rel: Seq<char>, href: Seq<char>, media: Seq<char>)
    ensures
        link_view(rel, href, media).member("rel"@) == Some(JsonView::Text(rel)),
        link_view(rel, href, media).member("href"@) == Some(JsonView::Text(href)),
{
    lemma_names();
}

proof fn lemma_links(datasets: Seq<DatasetEntry>, ids: Seq<Seq<char>>, id: Seq<char>)
    ensures
        links_of(catalog_view(datasets, ids)) == seq![
            link_view("root"@, CATALOG_FILE@, JSON_MEDIA_TYPE@),
            link_view("self"@, CATALOG_FILE@, JSON_MEDIA_TYPE@),
        ] + child_views(datasets, ids),
        links_of(collection_view(id, group(datasets, id))) == collection_links(
            id,
            group(datasets, id)[0].collection_via@,
        ),
        links_of(item_collection_view(id, group(datasets, id))) == seq![
            link_view("root"@, CATALOG_FILE@, JSON_MEDIA_TYPE@),
            link_view("collection"@, collection_path(id), JSON_MEDIA_TYPE@),
        ],
{
    lemma_names();
}

/// Every link of a document leads to one of the documents or names a source.
pub proof fn law_links_lead_to_documents(
    datasets: Seq<DatasetEntry>,
    ids: Seq<Seq<char>>,
    d: int,
    k: int,
)
    requires
        0 <= d < all_documents(datasets, ids).len(),
        0 <= k < links_of(all_documents(datasets, ids)[d].1).len(),
    ensures
        link_holds(
            all_documents(datasets, ids),
            links_of(all_documents(datasets, ids)[d].1)[k],
        ),
{
    let documents = all_documents(datasets, ids);
    law_number_of_documents(datasets, ids);
    let at_catalog = documents[2 * ids.len() as int];
    assert(at_catalog.0 == CATALOG_FILE@);
    let link = links_of(documents[d].1)[k];
    if d == 2 * ids.len() {
        lemma_links(datasets, ids, CATALOG_FILE@);
        lemma_link_members("root"@, CATALOG_FILE@, JSON_MEDIA_TYPE@);
        lemma_link_members("self"@, CATALOG_FILE@, JSON_MEDIA_TYPE@);
        if k >= 2 {
            let i = k - 2;
            lemma_places(datasets, ids, i);
            lemma_link_members("child"@, collection_path(ids[i]), JSON_MEDIA_TYPE@);
            assert(link == child_view(ids[i], group(datasets, ids[i])[0].title@));
            lemma_names();
            assert(link.member("href"@) == Some(JsonView::Text(documents[2 * i].0)));
        }
    } else {
        let i = d / 2;
        let id = ids[i];
        lemma_places(datasets, ids, i);
        lemma_links(datasets, ids, id);
        let via = group(datasets, id)[0].collection_via@;
        lemma_link_members("root"@, CATALOG_FILE@, JSON_MEDIA_TYPE@);
        lemma_link_members("parent"@, CATALOG_FILE@, JSON_MEDIA_TYPE@);
        lemma_link_members("self"@, collection_path(id), JSON_MEDIA_TYPE@);
        lemma_link_members("collection"@, collection_path(id), JSON_MEDIA_TYPE@);
        lemma_link_members("items"@, items_path(id), GEOJSON_MEDIA_TYPE@);
        lemma_via_members(via);
        assert(documents[2 * i].0 == collection_path(id));
        assert(documents[2 * i + 1].0 == items_path(id));
    }
}

proof fn lemma_group_holds(datasets: Seq<DatasetEntry>, i: int) -> (k: int)
    requires
        0 <= i < datasets.len(),
    ensures
        0 <= k < group(datasets, datasets[i].collection@).len(),
        group(datasets, datasets[i].collection@)[k] == datasets[i],
    decreases datasets.len(),
{
    let id = datasets[i].collection@;
    if i == datasets.len() - 1 {
        group(datasets, id).len() - 1
    } else {
        let k = lemma_group_holds(datasets.drop_last(), i);
        k
    }
}

/// Every file is an item in the document of its collection's items.
pub proof fn law_every_file_is_an_item(datasets: Seq<DatasetEntry>, ids: Seq<Seq<char>>, i: int)
    requires
        is_id_list(datasets, ids),
        0 <= i < datasets.len(),
    ensures
        exists|d: int|
            0 <= d < all_documents(datasets, ids).len() && (#[trigger] all_documents(
                datasets,
                ids,
            )[d]).0 == items_path(datasets[i].collection@) && features_of(
                all_documents(datasets, ids)[d].1,
            ).contains(item_view(datasets[i])),
{
    let id = datasets[i].collection@;
    assert(has_collection(datasets, id));
    assert(ids.contains(id));
    let n = choose|n: int| 0 <= n < ids.len() && ids[n] == id;
    lemma_places(datasets, ids, n);
    let k = lemma_group_holds(datasets, i);
    let entries = group(datasets, id);
    assert(items_view(entries)[k] == item_view(datasets[i]));
    lemma_names();
    let body = all_documents(datasets, ids)[2 * n + 1].1;
    assert(features_of(body) == items_view(entries));
    assert(features_of(body).contains(item_view(datasets[i])));
}

/// Every link of an item leads to one of the documents or names a source.
pub proof fn law_item_links_lead_to_documents(
    datasets: Seq<DatasetEntry>,
    ids: Seq<Seq<char>>,
    i: int,
    k: int,
)
    requires
        is_id_list(datasets, ids),
        0 <= i < datasets.len(),
        0 <= k < links_of(item_view(datasets[i])).len(),
    ensures
        link_holds(all_documents(datasets, ids), links_of(item_view(datasets[i]))[k]),
{
    let documents = all_documents(datasets, ids);
    let entry = datasets[i];
    let id = entry.collection@;
    law_number_of_documents(datasets, ids);
    assert(documents[2 * ids.len() as int].0 == CATALOG_FILE@);
    assert(has_collection(datasets, id));
    assert(ids.contains(id));
    let n = choose|n: int| 0 <= n < ids.len() && ids[n] == id;
    lemma_places(datasets, ids, n);
    assert(documents[2 * n].0 == collection_path(id));
    assert(links_of(item_view(entry)) == item_links(entry));
    lemma_link_members("root"@, CATALOG_FILE@, JSON_MEDIA_TYPE@);
    lemma_link_members("collection"@, collection_path(id), JSON_MEDIA_TYPE@);
    lemma_link_members("parent"@, collection_path(id), JSON_MEDIA_TYPE@);
    if entry.via is Some {
        lemma_via_members(entry.via->0@);
    }
}

/// How many items the collections have together.
pub open spec fn items_in(datasets: Seq<DatasetEntry>, ids: Seq<Seq<char>>) -> nat
    decreases ids.len(),
{
    if ids.len() == 0 {
        0
    } else {
        items_in(datasets, ids.drop_last()) + group(datasets, ids.last()).len()
    }
}

proof fn lemma_one_more(datasets: Seq<DatasetEntry>, ids: Seq<Seq<char>>)
    requires
        datasets.len() > 0,
        ids_rising(ids),
    ensures
        items_in(datasets, ids) == items_in(datasets.drop_last(), ids) + (if ids.contains(
            datasets.last().collection@,
        ) {
            1nat
        } else {
            0nat
        }),
    decreases ids.len(),
{
    let id = datasets.last().collection@;
    if ids.len() > 0 {
        let rest = ids.drop_last();
        assert(ids_rising(rest)) by {
            assert forall|i: int, j: int| 0 <= i < j < rest.len() implies text::lex_less(
                #[trigger] rest[i],
                #[trigger] rest[j],
            ) by {
                assert(text::lex_less(ids[i], ids[j]));
            }
        }
        lemma_one_more(datasets, rest);
        if rest.contains(id) {
            let m = choose|m: int| 0 <= m < rest.len() && rest[m] == id;
            assert(ids[m] == id);
            assert(text::lex_less(ids[m], ids[ids.len() - 1]));
            if ids.last() == id {
                text::lemma_lex_irreflexive(id);
            }
        }
        if ids.contains(id) && ids.last() != id {
            let m = choose|m: int| 0 <= m < ids.len() && ids[m] == id;
            assert(rest[m] == id);
        }
        if ids.last() == id {
            assert(ids[ids.len() - 1] == id);
        }
    }
}

proof fn lemma_items_counted(datasets: Seq<DatasetEntry>, ids: Seq<Seq<char>>)
    requires
        ids_rising(ids),
        forall|i: int| 0 <= i < datasets.len() ==> ids.contains((#[trigger] datasets[i]).collection@),
    ensures
        items_in(datasets, ids) == datasets.len(),
    decreases datasets.len(),
{
    if datasets.len() == 0 {
        lemma_no_items(datasets, ids);
    } else {
        let rest = datasets.drop_last();
        assert forall|i: int| 0 <= i < rest.len() implies ids.contains(
            (#[trigger] rest[i]).collection@,
        ) by {
            assert(rest[i] == datasets[i]);
        }
        lemma_items_counted(rest, ids);
        lemma_one_more(datasets, ids);
        assert(ids.contains(datasets[datasets.len() - 1].collection@));
    }
}

proof fn lemma_no_items(datasets: Seq<DatasetEntry>, ids: Seq<Seq<char>>)
    requires
        datasets.len() == 0,
    ensures
        items_in(datasets, ids) == 0,
    decreases ids.len(),
{
    if ids.len() > 0 {
        lemma_no_items(datasets, ids.drop_last());
    }
}

/// There are as many items as files, so each file is listed once.
pub proof fn law_as_many_items_as_files(datasets: Seq<DatasetEntry>, ids: Seq<Seq<char>>)
    requires
        is_id_list(datasets, ids),
    ensures
        items_in(datasets, ids) == datasets.len(),
{
    assert forall|i: int| 0 <= i < datasets.len() implies ids.contains(
        (#[trigger] datasets[i]).collection@,
    ) by {
        assert(has_collection(datasets, datasets[i].collection@));
    }
    lemma_items_counted(datasets, ids);
}

proof fn lemma_via_members(href: Seq<char>)
    ensures
        via_view(href).member("rel"@) == Some(JsonView::Text("via"@)),
{
    lemma_names();
}

proof fn lemma_file_names(a: Seq<char>, b: Seq<char>)
    requires
        a != "catalog"@,
        !text::has_suffix(a, "-items"@),
    ensures
        collection_path(a) != CATALOG_FILE@,
        items_path(a) != CATALOG_FILE@,
        collection_path(a) != items_path(b),
        collection_path(a) == collection_path(b) ==> a == b,
        items_path(a) == items_path(b) ==> a == b,
{
    reveal_strlit("catalog");
    reveal_strlit("catalog.json");
    reveal_strlit(".json");
    reveal_strlit("-items");
    reveal_strlit("-items.json");
    assert(CATALOG_FILE@ =~= "catalog"@ + ".json"@);
    assert("-items.json"@ =~= "-items"@ + ".json"@);
    assert(items_path(a) =~= a + "-items"@ + ".json"@);
    assert(items_path(b) =~= b + "-items"@ + ".json"@);
    lemma_same_tail(a, "catalog"@, ".json"@);
    lemma_same_tail(a + "-items"@, "catalog"@, ".json"@);
    lemma_same_tail(a, b + "-items"@, ".json"@);
    lemma_same_tail(a, b, ".json"@);
    lemma_same_tail(a, b, "-items.json"@);
    if a + "-items"@ == "catalog"@ {
        assert((a + "-items"@)[6] == 's');
        assert("catalog"@[6] == 'g');
    }
    if a == b + "-items"@ {
        assert(a.subrange(a.len() - 6, a.len() as int) =~= "-items"@);
    }
}

proof fn lemma_same_tail(a: Seq<char>, b: Seq<char>, tail: Seq<char>)
    ensures
        a + tail == b + tail ==> a == b,
{
    if a + tail == b + tail {
        assert((a + tail).len() == (b + tail).len());
        assert(a =~= (a + tail).take(a.len() as int));
        assert(b =~= (b + tail).take(b.len() as int));
    }
}

/// Where entries go by the table of datasets, no document takes the place of
/// another.
pub proof fn law_documents_have_their_own_paths(
    datasets: Seq<DatasetEntry>,
    ids: Seq<Seq<char>>,
    c: int,
    d: int,
)
    requires
        is_id_list(datasets, ids),
        forall|i: int| 0 <= i < datasets.len() ==> by_the_table(#[trigger] datasets[i]),
        0 <= c < d < all_documents(datasets, ids).len(),
    ensures
        all_documents(datasets, ids)[c].0 != all_documents(datasets, ids)[d].0,
{
    law_number_of_documents(datasets, ids);
    let documents = all_documents(datasets, ids);
    let a = ids[c / 2];
    lemma_places(datasets, ids, c / 2);
    lemma_free(datasets, ids, c / 2);
    if d == 2 * ids.len() {
        lemma_file_names(a, a);
    } else {
        let b = ids[d / 2];
        lemma_places(datasets, ids, d / 2);
        lemma_free(datasets, ids, d / 2);
        lemma_file_names(a, b);
        lemma_file_names(b, a);
        if c / 2 != d / 2 {
            assert(text::lex_less(a, b));
            text::lemma_lex_irreflexive(a);
        }
    }
}

proof fn lemma_free(datasets: Seq<DatasetEntry>, ids: Seq<Seq<char>>, n: int)
    requires
        is_id_list(datasets, ids),
        forall|i: int| 0 <= i < datasets.len() ==> by_the_table(#[trigger] datasets[i]),
        0 <= n < ids.len(),
    ensures
        ids[n] != "catalog"@,
        !text::has_suffix(ids[n], "-items"@),
{
    assert(ids.contains(ids[n]));
    let i = choose|i: int| 0 <= i < datasets.len() && (#[trigger] datasets[i]).collection@ == ids[n];
    assert(by_the_table(datasets[i]));
    let table = crate::datasets::spec_descriptions();
    let k = choose|k: int|
        0 <= k < table.len() && datasets[i].kind == (#[trigger] table[k]).1.kind
            && datasets[i].collection == table[k].1.collection;
    crate::datasets::law_collection_names_are_free(k);
}

/// How many of the documents are collections.
pub open spec fn collections_among(documents: Seq<(Seq<char>, JsonView)>) -> nat
    decreases documents.len(),
{
    if documents.len() == 0 {
        0
    } else if documents.last().1.member("type"@) == Some(JsonView::Text("Collection"@)) {
        collections_among(documents.drop_last()) + 1
    } else {
        collections_among(documents.drop_last())
    }
}

pub fn collection_count(documents: &Vec<Document>) -> (n: usize)
    ensures
        n == collections_among(documents_view(documents@)),
{
    let ghost all = documents_view(documents@);
    let mut n: usize = 0;
    let mut i: usize = 0;
    assert(all.take(0) == Seq::<(Seq<char>, JsonView)>::empty());
    while i < documents.len()
        invariant
            i <= documents@.len(),
            all == documents_view(documents@),
            n <= i,
            n == collections_among(all.take(i as int)),
        decreases documents@.len() - i,
    {
        assert(all.take(i + 1).drop_last() == all.take(i as int));
        assert(all.take(i + 1).last() == documents@[i as int]@);
        match json_get(&documents[i].body, "type") {
            Some(kind) => match json_as_str(kind) {
                Some(name) => if same_text(name, "Collection") {
                    n = n + 1;
                },
                None => {},
            },
            None => {},
        }
        i = i + 1;
    }
    assert(all.take(i as int) == all);
    n
}

proof fn lemma_item_keys()
    ensures
        "type"@ != "stac_version"@,
        "type"@ != "stac_extensions"@,
        "type"@ != "id"@,
        "type"@ != "collection"@,
        "type"@ != "bbox"@,
        "type"@ != "geometry"@,
        "type"@ != "properties"@,
        "type"@ != "assets"@,
        "type"@ != "links"@,
        "stac_version"@ != "stac_extensions"@,
        "stac_version"@ != "id"@,
        "stac_version"@ != "collection"@,
        "stac_version"@ != "bbox"@,
        "stac_version"@ != "geometry"@,
        "stac_version"@ != "properties"@,
        "stac_version"@ != "assets"@,
        "stac_version"@ != "links"@,
        "stac_extensions"@ != "id"@,
        "stac_extensions"@ != "collection"@,
        "stac_extensions"@ != "bbox"@,
        "stac_extensions"@ != "geometry"@,
        "stac_extensions"@ != "properties"@,
        "stac_extensions"@ != "assets"@,
        "stac_extensions"@ != "links"@,
        "id"@ != "collection"@,
        "id"@ != "bbox"@,
        "id"@ != "geometry"@,
        "id"@ != "properties"@,
        "id"@ != "assets"@,
        "id"@ != "links"@,
        "collection"@ != "bbox"@,
        "collection"@ != "geometry"@,
        "collection"@ != "properties"@,
        "collection"@ != "assets"@,
        "collection"@ != "links"@,
        "bbox"@ != "geometry"@,
        "bbox"@ != "properties"@,
        "bbox"@ != "assets"@,
        "bbox"@ != "links"@,
        "geometry"@ != "properties"@,
        "geometry"@ != "assets"@,
        "geometry"@ != "links"@,
        "properties"@ != "assets"@,
        "properties"@ != "links"@,
        "assets"@ != "links"@,
{
    reveal_strlit("type");
    reveal_strlit("stac_version");
    reveal_strlit("stac_extensions");
    reveal_strlit("id");
    reveal_strlit("collection");
    reveal_strlit("bbox");
    reveal_strlit("geometry");
    reveal_strlit("properties");
    reveal_strlit("assets");
    reveal_strlit("links");
    assert("type"@.len() == 4);
    assert("stac_version"@.len() == 12);
    assert("stac_extensions"@.len() == 15);
    assert("id"@.len() == 2);
    assert("collection"@.len() == 10);
    assert("bbox"@.len() == 4);
    assert("geometry"@.len() == 8);
    assert("properties"@.len() == 10);
    assert("assets"@.len() == 6);
    assert("links"@.len() == 5);
    assert("type"@[0] == 't' && "bbox"@[0] == 'b');
    assert("collection"@[0] == 'c' && "properties"@[0] == 'p');
}

proof fn lemma_link_keys()
    ensures
        "rel"@ != "href"@,
        "rel"@ != "type"@,
        "rel"@ != "title"@,
        "rel"@ != "roles"@,
        "href"@ != "type"@,
        "href"@ != "title"@,
        "href"@ != "roles"@,
        "type"@ != "title"@,
        "type"@ != "roles"@,
        "title"@ != "roles"@,
{
    reveal_strlit("rel");
    reveal_strlit("href");
    reveal_strlit("type");
    reveal_strlit("title");
    reveal_strlit("roles");
    assert("rel"@.len() == 3);
    assert("href"@.len() == 4);
    assert("type"@.len() == 4);
    assert("title"@.len() == 5);
    assert("roles"@.len() == 5);
    assert("href"@[0] == 'h' && "type"@[0] == 't');
    assert("title"@[0] == 't' && "roles"@[0] == 'r');
}

proof fn lemma_collection_keys()
    ensures
        "type"@ != "stac_version"@,
        "type"@ != "stac_extensions"@,
        "type"@ != "id"@,
        "type"@ != "title"@,
        "type"@ != "description"@,
        "type"@ != "license"@,
        "type"@ != "duck:attribution"@,
        "type"@ != "duck:attribution_url"@,
        "type"@ != "duck:kind"@,
        "type"@ != "providers"@,
        "type"@ != "extent"@,
        "type"@ != "item_assets"@,
        "type"@ != "links"@,
        "type"@ != "summaries"@,
        "type"@ != "duck:mesh_digits"@,
        "stac_version"@ != "stac_extensions"@,
        "stac_version"@ != "id"@,
        "stac_version"@ != "title"@,
        "stac_version"@ != "description"@,
        "stac_version"@ != "license"@,
        "stac_version"@ != "duck:attribution"@,
        "stac_version"@ != "duck:attribution_url"@,
        "stac_version"@ != "duck:kind"@,
        "stac_version"@ != "providers"@,
        "stac_version"@ != "extent"@,
        "stac_version"@ != "item_assets"@,
        "stac_version"@ != "links"@,
        "stac_version"@ != "summaries"@,
        "stac_version"@ != "duck:mesh_digits"@,
        "stac_extensions"@ != "id"@,
        "stac_extensions"@ != "title"@,
        "stac_extensions"@ != "description"@,
        "stac_extensions"@ != "license"@,
        "stac_extensions"@ != "duck:attribution"@,
        "stac_extensions"@ != "duck:attribution_url"@,
        "stac_extensions"@ != "duck:kind"@,
        "stac_extensions"@ != "providers"@,
        "stac_extensions"@ != "extent"@,
        "stac_extensions"@ != "item_assets"@,
        "stac_extensions"@ != "links"@,
        "stac_extensions"@ != "summaries"@,
        "stac_extensions"@ != "duck:mesh_digits"@,
        "id"@ != "title"@,
        "id"@ != "description"@,
        "id"@ != "license"@,
        "id"@ != "duck:attribution"@,
        "id"@ != "duck:attribution_url"@,
        "id"@ != "duck:kind"@,
        "id"@ != "providers"@,
        "id"@ != "extent"@,
        "id"@ != "item_assets"@,
        "id"@ != "links"@,
        "id"@ != "summaries"@,
        "id"@ != "duck:mesh_digits"@,
        "title"@ != "description"@,
        "title"@ != "license"@,
        "title"@ != "duck:attribution"@,
        "title"@ != "duck:attribution_url"@,
        "title"@ != "duck:kind"@,
        "title"@ != "providers"@,
        "title"@ != "extent"@,
        "title"@ != "item_assets"@,
        "title"@ != "links"@,
        "title"@ != "summaries"@,
        "title"@ != "duck:mesh_digits"@,
        "description"@ != "license"@,
        "description"@ != "duck:attribution"@,
        "description"@ != "duck:attribution_url"@,
        "description"@ != "duck:kind"@,
        "description"@ != "providers"@,
        "description"@ != "extent"@,
        "description"@ != "item_assets"@,
        "description"@ != "links"@,
        "description"@ != "summaries"@,
        "description"@ != "duck:mesh_digits"@,
        "license"@ != "duck:attribution"@,
        "license"@ != "duck:attribution_url"@,
        "license"@ != "duck:kind"@,
        "license"@ != "providers"@,
        "license"@ != "extent"@,
        "license"@ != "item_assets"@,
        "license"@ != "links"@,
        "license"@ != "summaries"@,
        "license"@ != "duck:mesh_digits"@,
        "duck:attribution"@ != "duck:attribution_url"@,
        "duck:attribution"@ != "duck:kind"@,
        "duck:attribution"@ != "providers"@,
        "duck:attribution"@ != "extent"@,
        "duck:attribution"@ != "item_assets"@,
        "duck:attribution"@ != "links"@,
        "duck:attribution"@ != "summaries"@,
        "duck:attribution"@ != "duck:mesh_digits"@,
        "duck:attribution_url"@ != "duck:kind"@,
        "duck:attribution_url"@ != "providers"@,
        "duck:attribution_url"@ != "extent"@,
        "duck:attribution_url"@ != "item_assets"@,
        "duck:attribution_url"@ != "links"@,
        "duck:attribution_url"@ != "summaries"@,
        "duck:attribution_url"@ != "duck:mesh_digits"@,
        "duck:kind"@ != "providers"@,
        "duck:kind"@ != "extent"@,
        "duck:kind"@ != "item_assets"@,
        "duck:kind"@ != "links"@,
        "duck:kind"@ != "summaries"@,
        "duck:kind"@ != "duck:mesh_digits"@,
        "providers"@ != "extent"@,
        "providers"@ != "item_assets"@,
        "providers"@ != "links"@,
        "providers"@ != "summaries"@,
        "providers"@ != "duck:mesh_digits"@,
        "extent"@ != "item_assets"@,
        "extent"@ != "links"@,
        "extent"@ != "summaries"@,
        "extent"@ != "duck:mesh_digits"@,
        "item_assets"@ != "links"@,
        "item_assets"@ != "summaries"@,
        "item_assets"@ != "duck:mesh_digits"@,
        "links"@ != "summaries"@,
        "links"@ != "duck:mesh_digits"@,
        "summaries"@ != "duck:mesh_digits"@,
{
    reveal_strlit("type");
    reveal_strlit("stac_version");
    reveal_strlit("stac_extensions");
    reveal_strlit("id");
    reveal_strlit("title");
    reveal_strlit("description");
    reveal_strlit("license");
    reveal_strlit("duck:attribution");
    reveal_strlit("duck:attribution_url");
    reveal_strlit("duck:kind");
    reveal_strlit("providers");
    reveal_strlit("extent");
    reveal_strlit("item_assets");
    reveal_strlit("links");
    reveal_strlit("summaries");
    reveal_strlit("duck:mesh_digits");
    assert("type"@.len() == 4);
    assert("stac_version"@.len() == 12);
    assert("stac_extensions"@.len() == 15);
    assert("id"@.len() == 2);
    assert("title"@.len() == 5);
    assert("description"@.len() == 11);
    assert("license"@.len() == 7);
    assert("duck:attribution"@.len() == 16);
    assert("duck:attribution_url"@.len() == 20);
    assert("duck:kind"@.len() == 9);
    assert("providers"@.len() == 9);
    assert("extent"@.len() == 6);
    assert("item_assets"@.len() == 11);
    assert("links"@.len() == 5);
    assert("summaries"@.len() == 9);
    assert("duck:mesh_digits"@.len() == 16);
    assert("title"@[0] == 't' && "links"@[0] == 'l');
    assert("description"@[0] == 'd' && "item_assets"@[0] == 'i');
    assert("duck:attribution"@[5] == 'a' && "duck:mesh_digits"@[5] == 'm');
    assert("duck:kind"@[0] == 'd' && "providers"@[0] == 'p');
    assert("duck:kind"@[0] == 'd' && "summaries"@[0] == 's');
    assert("providers"@[0] == 'p' && "summaries"@[0] == 's');
}

proof fn lemma_property_keys()
    ensures
        "datetime"@ != "table:row_count"@,
        "datetime"@ != "duck:geometry_types"@,
        "table:row_count"@ != "duck:geometry_types"@,
{
    reveal_strlit("datetime");
    reveal_strlit("table:row_count");
    reveal_strlit("duck:geometry_types");
    assert("datetime"@.len() == 8);
    assert("table:row_count"@.len() == 15);
    assert("duck:geometry_types"@.len() == 19);
}

proof fn lemma_small_keys()
    ensures
        "name"@ != "roles"@,
        "name"@ != "url"@,
        "name"@ != "type"@,
        "name"@ != "spatial"@,
        "name"@ != "temporal"@,
        "name"@ != "table:columns"@,
        "roles"@ != "url"@,
        "roles"@ != "type"@,
        "roles"@ != "spatial"@,
        "roles"@ != "temporal"@,
        "roles"@ != "table:columns"@,
        "url"@ != "type"@,
        "url"@ != "spatial"@,
        "url"@ != "temporal"@,
        "url"@ != "table:columns"@,
        "type"@ != "spatial"@,
        "type"@ != "temporal"@,
        "type"@ != "table:columns"@,
        "spatial"@ != "temporal"@,
        "spatial"@ != "table:columns"@,
        "temporal"@ != "table:columns"@,
{
    reveal_strlit("name");
    reveal_strlit("roles");
    reveal_strlit("url");
    reveal_strlit("type");
    reveal_strlit("spatial");
    reveal_strlit("temporal");
    reveal_strlit("table:columns");
    assert("name"@.len() == 4);
    assert("roles"@.len() == 5);
    assert("url"@.len() == 3);
    assert("type"@.len() == 4);
    assert("spatial"@.len() == 7);
    assert("temporal"@.len() == 8);
    assert("table:columns"@.len() == 13);
    assert("name"@[0] == 'n' && "type"@[0] == 't');
}

/// A link says how a document stands to another, where that is and what type it
/// is of.
pub open spec fn links_to(
    link: JsonView,
    rel: Seq<char>,
    href: Seq<char>,
    media: Seq<char>,
) -> bool {
    &&& link.member("rel"@) == Some(JsonView::Text(rel))
    &&& link.member("href"@) == Some(JsonView::Text(href))
    &&& link.member("type"@) == Some(JsonView::Text(media))
}

/// An array of four numbers: west, south, east, north.
pub open spec fn shows_bounds(v: JsonView, b: Bounds) -> bool {
    &&& v is Array && v->Array_0.len() == 4
    &&& b.xmin.finite() ==> v->Array_0[0] == JsonView::Real(b.xmin)
    &&& b.ymin.finite() ==> v->Array_0[1] == JsonView::Real(b.ymin)
    &&& b.xmax.finite() ==> v->Array_0[2] == JsonView::Real(b.xmax)
    &&& b.ymax.finite() ==> v->Array_0[3] == JsonView::Real(b.ymax)
}

/// An array of two numbers.
pub open spec fn shows_point(v: JsonView, x: Real, y: Real) -> bool {
    &&& v is Array && v->Array_0.len() == 2
    &&& x.finite() ==> v->Array_0[0] == JsonView::Real(x)
    &&& y.finite() ==> v->Array_0[1] == JsonView::Real(y)
}

/// The geometry of an item goes once around the bounds: from the south-western
/// corner to the south-eastern, the north-eastern, the north-western and back.
pub proof fn law_rectangles_go_around(b: Bounds)
    ensures
        ({
            let v = rectangle_view(b);
            let rings = v.member("coordinates"@);
            let ring = rings->0->Array_0[0];
            &&& v.member("type"@) == Some(JsonView::Text("Polygon"@))
            &&& rings is Some && rings->0 is Array && rings->0->Array_0.len() == 1
            &&& ring is Array && ring->Array_0.len() == 5
            &&& shows_point(ring->Array_0[0], b.xmin, b.ymin)
            &&& shows_point(ring->Array_0[1], b.xmax, b.ymin)
            &&& shows_point(ring->Array_0[2], b.xmax, b.ymax)
            &&& shows_point(ring->Array_0[3], b.xmin, b.ymax)
            &&& ring->Array_0[4] == ring->Array_0[0]
        }),
{
    reveal_strlit("type");
    reveal_strlit("coordinates");
    assert("type"@.len() == 4 && "coordinates"@.len() == 11);
}

/// An item says of its file: its name, the collection that it belongs to, its
/// bounds, its number of rows and the types of its geometries, and where it is.
pub proof fn law_items_describe_their_file(entry: DatasetEntry)
    ensures
        ({
            let item = item_view(entry);
            let properties = item.member("properties"@);
            let asset = json::member_of(item.member("assets"@), "data"@);
            let types = json::member_of(properties, "duck:geometry_types"@);
            &&& item.member("type"@) == Some(JsonView::Text("Feature"@))
            &&& item.member("stac_version"@) == Some(JsonView::Text("1.1.0"@))
            &&& item.member("id"@) == Some(JsonView::Text(entry.id@))
            &&& item.member("collection"@) == Some(JsonView::Text(entry.collection@))
            &&& item.member("bbox"@) is Some
            &&& entry.bbox is Some ==> shows_bounds(item.member("bbox"@)->0, entry.bbox->0)
            &&& entry.bbox is None ==> item.member("bbox"@)->0 is Null
            &&& entry.bbox is Some ==> item.member("geometry"@) == Some(
                rectangle_view(entry.bbox->0),
            )
            &&& entry.bbox is None ==> item.member("geometry"@) == Some(JsonView::Null)
            &&& json::member_of(properties, "datetime"@) == Some(JsonView::Null)
            &&& json::member_of(properties, "table:row_count"@) == Some(
                JsonView::Int(entry.row_count as int),
            )
            &&& types is Some <==> entry.geometry_types@.len() > 0
            &&& types is Some ==> types->0 is Array && types->0->Array_0.len()
                == entry.geometry_types@.len()
            &&& types is Some ==> forall|k: int|
                #![trigger types->0->Array_0[k]]
                0 <= k < entry.geometry_types@.len() ==> types->0->Array_0[k] == JsonView::Text(
                    entry.geometry_types@[k]@,
                )
            &&& json::member_of(asset, "href"@) == Some(JsonView::Text(entry.file@))
            &&& json::member_of(asset, "type"@) == Some(
                JsonView::Text("application/vnd.apache.parquet"@),
            )
            &&& json::member_of(asset, "title"@) == Some(JsonView::Text(entry.title@))
        }),
{
    lemma_item_keys();
    lemma_link_keys();
    lemma_property_keys();
}

/// An item links to the catalog, to its collection as such and as its parent,
/// and to where its file came from where that is known.
pub proof fn law_items_link_to_their_collection(entry: DatasetEntry)
    ensures
        ({
            let links = item_view(entry).member("links"@);
            let own = entry.collection@ + ".json"@;
            &&& links is Some && links->0 is Array
            &&& links->0->Array_0.len() == (if entry.via is Some {
                4nat
            } else {
                3nat
            })
            &&& links_to(links->0->Array_0[0], "root"@, "catalog.json"@, "application/json"@)
            &&& links_to(links->0->Array_0[1], "collection"@, own, "application/json"@)
            &&& links_to(links->0->Array_0[2], "parent"@, own, "application/json"@)
            &&& entry.via is Some ==> links->0->Array_0[3].member("rel"@) == Some(
                JsonView::Text("via"@),
            ) && links->0->Array_0[3].member("href"@) == Some(JsonView::Text(entry.via->0@))
        }),
{
    lemma_item_keys();
    lemma_link_keys();
}

/// A collection is described by its first file: its title and description, its
/// licence and to whom it is credited, the kind of its data, and the columns
/// that its files have.
pub proof fn law_collections_describe_their_files(id: Seq<char>, entries: Seq<DatasetEntry>)
    requires
        entries.len() > 0,
    ensures
        ({
            let c = collection_view(id, entries);
            let first = entries[0];
            let providers = c.member("providers"@);
            let columns = json::member_of(
                json::member_of(c.member("item_assets"@), "data"@),
                "table:columns"@,
            );
            &&& c.member("type"@) == Some(JsonView::Text("Collection"@))
            &&& c.member("stac_version"@) == Some(JsonView::Text("1.1.0"@))
            &&& c.member("id"@) == Some(JsonView::Text(id))
            &&& c.member("title"@) == Some(JsonView::Text(first.title@))
            &&& c.member("description"@) == Some(JsonView::Text(first.description@))
            &&& c.member("license"@) == Some(JsonView::Text(first.attribution.license@))
            &&& c.member("duck:attribution"@) == Some(JsonView::Text(first.attribution.text@))
            &&& c.member("duck:attribution_url"@) == Some(JsonView::Text(first.attribution.url@))
            &&& c.member("duck:kind"@) == Some(JsonView::Text(first.kind.spec_name()))
            &&& providers is Some && providers->0 is Array && providers->0->Array_0.len() == 1
            &&& providers->0->Array_0[0].member("name"@) == Some(
                JsonView::Text(first.attribution.provider@),
            )
            &&& providers->0->Array_0[0].member("url"@) == Some(
                JsonView::Text(first.attribution.url@),
            )
            &&& columns is Some && columns->0 is Array
            &&& columns->0->Array_0.len() == first.columns@.len()
            &&& forall|k: int|
                #![trigger columns->0->Array_0[k]]
                0 <= k < first.columns@.len() ==> columns->0->Array_0[k].member("name"@) == Some(
                    JsonView::Text(first.columns@[k].name@),
                ) && columns->0->Array_0[k].member("type"@) == Some(
                    JsonView::Text(first.columns@[k].data_type@),
                )
            &&& c.member("duck:mesh_digits"@) is Some <==> first.mesh_digits is Some
            &&& first.mesh_digits is Some ==> c.member("duck:mesh_digits"@) == Some(
                JsonView::Int(first.mesh_digits->0 as int),
            )
        }),
{
    lemma_collection_keys();
    lemma_small_keys();
}

/// The extent of a collection is the area of its files; where none has one it
/// is left open. Its vocabularies are those of its files together.
pub proof fn law_collections_cover_their_files(
    id: Seq<char>,
    entries: Seq<DatasetEntry>,
    column: Seq<char>,
)
    requires
        entries.len() > 0,
    ensures
        ({
            let c = collection_view(id, entries);
            let boxes = json::member_of(json::member_of(c.member("extent"@), "spatial"@), "bbox"@);
            let values = json::member_of(c.member("summaries"@), column);
            &&& boxes is Some && boxes->0 is Array && boxes->0->Array_0.len() == 1
            &&& area(entries) is Some ==> shows_bounds(boxes->0->Array_0[0], area(entries)->0)
            &&& area(entries) is None ==> boxes->0->Array_0[0] is Array
                && boxes->0->Array_0[0]->Array_0.len() == 4 && forall|k: int|
                #![trigger boxes->0->Array_0[0]->Array_0[k]]
                0 <= k < 4 ==> boxes->0->Array_0[0]->Array_0[k] is Null
            &&& values is Some <==> merged(entries).contains_key(column)
            &&& values is Some ==> values->0 is Array && values->0->Array_0.len()
                == merged(entries)[column].len()
            &&& values is Some ==> forall|k: int|
                #![trigger values->0->Array_0[k]]
                0 <= k < merged(entries)[column].len() ==> values->0->Array_0[k] == JsonView::Text(
                    merged(entries)[column][k],
                )
        }),
{
    lemma_collection_keys();
    lemma_small_keys();
    if merged(entries) == Map::<Seq<char>, Seq<Seq<char>>>::empty() {
        assert(!merged(entries).contains_key(column));
    }
}

/// A collection links to the catalog as its root and its parent, to itself, to
/// the file with its items, and to where its data came from.
pub proof fn law_collections_link_to_their_items(id: Seq<char>, entries: Seq<DatasetEntry>)
    requires
        entries.len() > 0,
    ensures
        ({
            let links = collection_view(id, entries).member("links"@);
            &&& links is Some && links->0 is Array && links->0->Array_0.len() == 5
            &&& links_to(links->0->Array_0[0], "root"@, "catalog.json"@, "application/json"@)
            &&& links_to(links->0->Array_0[1], "parent"@, "catalog.json"@, "application/json"@)
            &&& links_to(links->0->Array_0[2], "self"@, id + ".json"@, "application/json"@)
            &&& links_to(
                links->0->Array_0[3],
                "items"@,
                id + "-items.json"@,
                "application/geo+json"@,
            )
            &&& links->0->Array_0[4].member("rel"@) == Some(JsonView::Text("via"@))
            &&& links->0->Array_0[4].member("href"@) == Some(
                JsonView::Text(entries[0].collection_via@),
            )
        }),
{
    lemma_collection_keys();
    lemma_link_keys();
}

/// The files of a collection are those that name it, in order, and the file of
/// items holds one for each of them.
pub proof fn law_collections_hold_their_files(datasets: Seq<DatasetEntry>, id: Seq<char>)
    ensures
        group(datasets, id) == datasets.filter(|d: DatasetEntry| d.collection@ == id),
        ({
            let items = item_collection_view(id, group(datasets, id)).member("features"@);
            &&& items is Some && items->0 is Array
            &&& items->0->Array_0.len() == group(datasets, id).len()
            &&& forall|k: int|
                #![trigger items->0->Array_0[k]]
                0 <= k < group(datasets, id).len() ==> items->0->Array_0[k] == item_view(
                    group(datasets, id)[k],
                )
        }),
    decreases datasets.len(),
{
    reveal(Seq::filter);
    reveal_strlit("type");
    reveal_strlit("features");
    reveal_strlit("links");
    assert("type"@.len() == 4 && "features"@.len() == 8 && "links"@.len() == 5);
    if datasets.len() > 0 {
        law_collections_hold_their_files(datasets.drop_last(), id);
    } else {
        assert(datasets =~= Seq::<DatasetEntry>::empty());
    }
}

/// Each collection has its document and behind it the file with its items, in
/// the order of the collections; the catalog comes last.
pub proof fn law_documents_come_in_order(datasets: Seq<DatasetEntry>, ids: Seq<Seq<char>>, n: int)
    requires
        0 <= n < ids.len(),
    ensures
        all_documents(datasets, ids).len() == 2 * ids.len() + 1,
        all_documents(datasets, ids)[2 * n].0 == ids[n] + ".json"@,
        all_documents(datasets, ids)[2 * n].1 == collection_view(ids[n], group(datasets, ids[n])),
        all_documents(datasets, ids)[2 * n + 1].0 == ids[n] + "-items.json"@,
        all_documents(datasets, ids)[2 * n + 1].1 == item_collection_view(
            ids[n],
            group(datasets, ids[n]),
        ),
        all_documents(datasets, ids).last() == ("catalog.json"@, catalog_view(datasets, ids)),
    decreases ids.len(),
{
    law_number_of_documents(datasets, ids);
    law_number_of_documents(datasets, ids.drop_last());
    if n < ids.len() - 1 {
        law_documents_come_in_order(datasets, ids.drop_last(), n);
        let rest = all_documents(datasets, ids.drop_last());
        assert(all_documents(datasets, ids)[2 * n] == rest[2 * n]);
        assert(all_documents(datasets, ids)[2 * n + 1] == rest[2 * n + 1]);
    }
}

/// The catalog links to itself and, behind that, to each collection by its path
/// and its title, in order.
pub proof fn law_the_catalog_links_to_collections(
    datasets: Seq<DatasetEntry>,
    ids: Seq<Seq<char>>,
    n: int,
)
    requires
        0 <= n < ids.len(),
    ensures
        ({
            let links = catalog_view(datasets, ids).member("links"@);
            let link = links->0->Array_0[n + 2];
            &&& catalog_view(datasets, ids).member("type"@) == Some(JsonView::Text("Catalog"@))
            &&& catalog_view(datasets, ids).member("id"@) == Some(
                JsonView::Text("duck-geocoder"@),
            )
            &&& links is Some && links->0 is Array && links->0->Array_0.len() == ids.len() + 2
            &&& links_to(links->0->Array_0[0], "root"@, "catalog.json"@, "application/json"@)
            &&& links_to(links->0->Array_0[1], "self"@, "catalog.json"@, "application/json"@)
            &&& links_to(link, "child"@, ids[n] + ".json"@, "application/json"@)
            &&& link.member("title"@) == Some(
                JsonView::Text(group(datasets, ids[n])[0].title@),
            )
        }),
{
    lemma_collection_keys();
    lemma_link_keys();
}

/// Each side of the area of files is that of one of them.
pub proof fn law_area_is_reached(entries: Seq<DatasetEntry>)
    requires
        area(entries) is Some,
        forall|j: int| 0 <= j < entries.len() ==> sound((#[trigger] entries[j]).bbox),
    ensures
        exists|i: int|
            0 <= i < entries.len() && (#[trigger] entries[i]).bbox is Some
                && entries[i].bbox->0.xmin == area(entries)->0.xmin,
        exists|i: int|
            0 <= i < entries.len() && (#[trigger] entries[i]).bbox is Some
                && entries[i].bbox->0.ymin == area(entries)->0.ymin,
        exists|i: int|
            0 <= i < entries.len() && (#[trigger] entries[i]).bbox is Some
                && entries[i].bbox->0.xmax == area(entries)->0.xmax,
        exists|i: int|
            0 <= i < entries.len() && (#[trigger] entries[i]).bbox is Some
                && entries[i].bbox->0.ymax == area(entries)->0.ymax,
    decreases entries.len(),
{
    let rest = entries.drop_last();
    let last = entries.len() - 1;
    assert(entries[last] == entries.last());
    assert(forall|i: int| #![trigger rest[i]] 0 <= i < rest.len() ==> rest[i] == entries[i]);
    if area(rest) is Some {
        assert forall|j: int| 0 <= j < rest.len() implies sound((#[trigger] rest[j]).bbox) by {
            assert(rest[j] == entries[j]);
        }
        law_area_is_reached(rest);
        let a = choose|i: int|
            0 <= i < rest.len() && (#[trigger] rest[i]).bbox is Some && rest[i].bbox->0.xmin
                == area(rest)->0.xmin;
        let b = choose|i: int|
            0 <= i < rest.len() && (#[trigger] rest[i]).bbox is Some && rest[i].bbox->0.ymin
                == area(rest)->0.ymin;
        let c = choose|i: int|
            0 <= i < rest.len() && (#[trigger] rest[i]).bbox is Some && rest[i].bbox->0.xmax
                == area(rest)->0.xmax;
        let d = choose|i: int|
            0 <= i < rest.len() && (#[trigger] rest[i]).bbox is Some && rest[i].bbox->0.ymax
                == area(rest)->0.ymax;
        assert(entries[a] == rest[a] && entries[b] == rest[b] && entries[c] == rest[c]
            && entries[d] == rest[d]);
    }
}

/// An entry has the vocabulary of a column.
pub open spec fn has_values(entry: DatasetEntry, column: Seq<char>) -> bool {
    exists|k: int|
        0 <= k < entry.summaries@.len() && (#[trigger] entry.summaries@[k]).column@ == column
}

/// An entry has a value in the vocabulary of a column.
pub open spec fn has_value(entry: DatasetEntry, column: Seq<char>, value: Seq<char>) -> bool {
    exists|k: int|
        0 <= k < entry.summaries@.len() && (#[trigger] entry.summaries@[k]).column@ == column
            && text::texts(entry.summaries@[k].values@).contains(value)
}

proof fn lemma_merge_entry(
    m: Map<Seq<char>, Seq<Seq<char>>>,
    summaries: Seq<Summary>,
    column: Seq<char>,
    value: Seq<char>,
)
    ensures
        merge_entry(m, summaries).contains_key(column) <==> m.contains_key(column) || exists|k: int|
            0 <= k < summaries.len() && (#[trigger] summaries[k]).column@ == column,
        held_values(merge_entry(m, summaries), column).contains(value) <==> held_values(
            m,
            column,
        ).contains(value) || exists|k: int|
            0 <= k < summaries.len() && (#[trigger] summaries[k]).column@ == column && text::texts(
                summaries[k].values@,
            ).contains(value),
    decreases summaries.len(),
{
    if summaries.len() > 0 {
        let rest = summaries.drop_last();
        let last = summaries.len() - 1;
        lemma_merge_entry(m, rest, column, value);
        assert(summaries[last] == summaries.last());
        assert(forall|k: int| #![trigger rest[k]] 0 <= k < last ==> rest[k] == summaries[k]);
        assert(forall|k: int| #![trigger summaries[k]] 0 <= k < last ==> rest[k] == summaries[k]);
        let values = text::texts(summaries.last().values@);
        law_merging_keeps_order(held_values(merge_entry(m, rest), column), values);
        if exists|k: int| 0 <= k < rest.len() && (#[trigger] rest[k]).column@ == column {
            let k = choose|k: int| 0 <= k < rest.len() && (#[trigger] rest[k]).column@ == column;
            assert(summaries[k].column@ == column);
        }
        if exists|k: int|
            0 <= k < rest.len() && (#[trigger] rest[k]).column@ == column && text::texts(
                rest[k].values@,
            ).contains(value) {
            let k = choose|k: int|
                0 <= k < rest.len() && (#[trigger] rest[k]).column@ == column && text::texts(
                    rest[k].values@,
                ).contains(value);
            assert(summaries[k].column@ == column);
        }
    }
}

/// The vocabularies of a collection are those of its files together: a column
/// has one where it has one in a file, and a value is in it where it is in that
/// of a file.
pub proof fn law_vocabularies_are_put_together(
    entries: Seq<DatasetEntry>,
    column: Seq<char>,
    value: Seq<char>,
)
    ensures
        merged(entries).contains_key(column) <==> exists|i: int|
            0 <= i < entries.len() && has_values(#[trigger] entries[i], column),
        held_values(merged(entries), column).contains(value) <==> exists|i: int|
            0 <= i < entries.len() && has_value(#[trigger] entries[i], column, value),
    decreases entries.len(),
{
    if entries.len() > 0 {
        let rest = entries.drop_last();
        let last = entries.len() - 1;
        law_vocabularies_are_put_together(rest, column, value);
        lemma_merge_entry(merged(rest), entries.last().summaries@, column, value);
        assert(entries[last] == entries.last());
        assert(forall|i: int| #![trigger rest[i]] 0 <= i < last ==> rest[i] == entries[i]);
        assert(forall|i: int| #![trigger entries[i]] 0 <= i < last ==> rest[i] == entries[i]);
        if exists|i: int| 0 <= i < rest.len() && has_values(#[trigger] rest[i], column) {
            let i = choose|i: int| 0 <= i < rest.len() && has_values(#[trigger] rest[i], column);
            assert(has_values(entries[i], column));
        }
        if exists|i: int| 0 <= i < rest.len() && has_value(#[trigger] rest[i], column, value) {
            let i = choose|i: int|
                0 <= i < rest.len() && has_value(#[trigger] rest[i], column, value);
            assert(has_value(entries[i], column, value));
        }
        if has_values(entries.last(), column) {
            assert(has_values(entries[last], column));
        }
        if has_value(entries.last(), column, value) {
            assert(has_value(entries[last], column, value));
        }
    }
}

} // verus!
