//! What is in a delivered file: the entries from which the catalog is made.
use crate::archive::utf8_text;
use crate::codelists::copy_bytes;
use crate::datasets;
use crate::geo::{Bounds, ShapeView};
use crate::geoparquet;
use crate::geoparquet::{
    find_primary, GeoError, GeoFault, Provenance, Table, VIA_KEY, VINTAGE_KEY,
};
use crate::json;
use crate::json::{json_as_array, json_as_real, json_get, json_parse, texts_among, JsonView};
use crate::number::Real;
use crate::text;
use crate::text::{copy_texts, join, same_text, text_less};
use vstd::prelude::*;

pub use crate::datasets::{describe, descriptions, Attribution, DatasetKind, Description};
pub use crate::vocabulary::{vocabulary_of, Vocabulary, MAX_VOCABULARY};

verus! {

/// A column of a file.
#[derive(Debug, PartialEq)]
pub struct ColumnEntry {
    pub name: String,
    /// The physical type in the file.
    pub data_type: String,
}

/// The values that a column takes.
#[derive(Debug, PartialEq)]
pub struct Summary {
    pub column: String,
    /// The most frequent first.
    pub values: Vec<String>,
}

/// One delivered file.
#[derive(Debug, PartialEq)]
pub struct DatasetEntry {
    /// The name of the file without extension.
    pub id: String,
    /// The path under which it is delivered.
    pub file: String,
    pub kind: DatasetKind,
    pub collection: &'static str,
    pub title: &'static str,
    pub description: &'static str,
    pub attribution: Attribution,
    pub geometry_types: Vec<String>,
    /// The area that it covers.
    pub bbox: Option<Bounds>,
    pub row_count: i64,
    pub columns: Vec<ColumnEntry>,
    /// Vocabularies, in the order of their columns' names.
    pub summaries: Vec<Summary>,
    pub mesh_digits: Option<u8>,
    /// The place that this one file was made from, where it says so.
    pub via: Option<String>,
    /// The date of the data, where the file says so.
    pub vintage: Option<String>,
    /// Where the data of the whole collection can be had.
    pub collection_via: &'static str,
}

// ---------------------------------------------------------------------------
// The `geo` metadata
// ---------------------------------------------------------------------------

/// The numbers among `items`, in order.
pub open spec fn numbers_in(items: Seq<JsonView>) -> Seq<Real>
    decreases items.len(),
{
    if items.len() == 0 {
        Seq::empty()
    } else {
        match json::json_number(items.last()) {
            Some(r) => numbers_in(items.drop_last()).push(r),
            None => numbers_in(items.drop_last()),
        }
    }
}

/// Bounds from four numbers; nothing from more or fewer.
pub open spec fn bounds_from(numbers: Seq<Real>) -> Option<Bounds> {
    if numbers.len() == 4 {
        Some(Bounds { xmin: numbers[0], ymin: numbers[1], xmax: numbers[2], ymax: numbers[3] })
    } else {
        None
    }
}

/// The geometry types and the bounds in the definition of a column.
pub open spec fn column_facts(column: JsonView) -> (Seq<Seq<char>>, Option<Bounds>) {
    (
        match column.member("geometry_types"@) {
            Some(JsonView::Array(items)) => json::texts_in(items),
            _ => Seq::empty(),
        },
        match column.member("bbox"@) {
            Some(JsonView::Array(items)) => bounds_from(numbers_in(items)),
            _ => None,
        },
    )
}

/// The geometry types and the bounds that `geo` metadata declares.
pub open spec fn geo_facts(geo: JsonView) -> Result<(Seq<Seq<char>>, Option<Bounds>), GeoFault> {
    match geoparquet::primary_definition(geo) {
        Ok((_, column)) => Ok(column_facts(column)),
        Err(e) => Err(e),
    }
}

pub open spec fn geo_facts_in_text(text: Seq<char>) -> Result<
    (Seq<Seq<char>>, Option<Bounds>),
    GeoFault,
> {
    match json::json_text(text) {
        Ok(geo) => geo_facts(geo),
        Err(cause) => Err(GeoFault::NotJson(cause)),
    }
}

/// The view of geometry types and bounds.
pub open spec fn facts_view(facts: (Vec<String>, Option<Bounds>)) -> (
    Seq<Seq<char>>,
    Option<Bounds>,
) {
    (text::texts(facts.0@), facts.1)
}

fn bounds_among(items: &Vec<serde_json::Value>) -> (b: Option<Bounds>)
    ensures
        b == bounds_from(numbers_in(json::views(items@))),
{
    let ghost all = json::views(items@);
    let mut numbers: Vec<Real> = Vec::new();
    let mut i: usize = 0;
    assert(all.take(0) == Seq::<JsonView>::empty());
    while i < items.len()
        invariant
            i <= items@.len(),
            all == json::views(items@),
            numbers@ == numbers_in(all.take(i as int)),
        decreases items@.len() - i,
    {
        assert(all.take(i + 1).drop_last() == all.take(i as int));
        assert(all.take(i + 1).last() == json::json_of(items@[i as int]));
        match json_as_real(&items[i]) {
            Some(r) => {
                numbers.push(r);
            },
            None => {},
        }
        i = i + 1;
    }
    assert(all.take(i as int) == all);
    if numbers.len() == 4 {
        Some(
            Bounds { xmin: numbers[0], ymin: numbers[1], xmax: numbers[2], ymax: numbers[3] },
        )
    } else {
        None
    }
}

/// The geometry types and the bounds that parsed `geo` metadata declares.
pub fn geo_metadata_facts(geo: &serde_json::Value) -> (r: Result<
    (Vec<String>, Option<Bounds>),
    GeoError,
>)
    ensures
        match r {
            Ok(facts) => geo_facts(json::json_of(*geo)) == Ok::<
                (Seq<Seq<char>>, Option<Bounds>),
                GeoFault,
            >(facts_view(facts)),
            Err(e) => geo_facts(json::json_of(*geo)) == Err::<
                (Seq<Seq<char>>, Option<Bounds>),
                GeoFault,
            >(e@),
        },
{
    let column = match find_primary(geo) {
        Ok((_, column)) => column,
        Err(e) => {
            return Err(e);
        },
    };
    let types: Vec<String> = match json_get(column, "geometry_types") {
        Some(v) => match json_as_array(v) {
            Some(items) => texts_among(items),
            None => Vec::new(),
        },
        None => Vec::new(),
    };
    let bbox: Option<Bounds> = match json_get(column, "bbox") {
        Some(v) => match json_as_array(v) {
            Some(items) => bounds_among(items),
            None => None,
        },
        None => None,
    };
    assert(text::texts(types@) =~= column_facts(json::json_of(*column)).0);
    Ok((types, bbox))
}

/// Reads the geometry types and the bounds from `geo` metadata.
pub fn read_geo_metadata(geo_json: &str) -> (r: Result<(Vec<String>, Option<Bounds>), GeoError>)
    ensures
        match r {
            Ok(facts) => geo_facts_in_text(geo_json@) == Ok::<
                (Seq<Seq<char>>, Option<Bounds>),
                GeoFault,
            >(facts_view(facts)),
            Err(e) => geo_facts_in_text(geo_json@) == Err::<
                (Seq<Seq<char>>, Option<Bounds>),
                GeoFault,
            >(e@),
        },
{
    match json_parse(geo_json) {
        Ok(geo) => geo_metadata_facts(&geo),
        Err(cause) => Err(GeoError::NotJson(cause)),
    }
}

// ---------------------------------------------------------------------------
// Paths
// ---------------------------------------------------------------------------

/// The components of a path, each as its bytes.
pub open spec fn parts_view(parts: Seq<Vec<u8>>) -> Seq<Seq<u8>> {
    Seq::new(parts.len(), |i: int| parts[i]@)
}

/// `path` begins with the components of `base`.
pub open spec fn under(path: Seq<Seq<u8>>, base: Seq<Seq<u8>>) -> bool {
    base.len() <= path.len() && forall|i: int|
        0 <= i < base.len() ==> path[i] == #[trigger] base[i]
}

/// The components of `path` below `base`; all of them where it does not lie below.
pub open spec fn relative(path: Seq<Seq<u8>>, base: Seq<Seq<u8>>) -> Seq<Seq<u8>> {
    if under(path, base) {
        path.skip(base.len() as int)
    } else {
        path
    }
}

/// A component as a text, where it is one.
pub open spec fn part_text(part: Seq<u8>) -> Option<Seq<char>> {
    if vstd::utf8::valid_utf8(part) {
        Some(vstd::utf8::decode_utf8(part))
    } else {
        None
    }
}

/// The components joined by slashes; nothing where one is no text.
pub open spec fn slashed(parts: Seq<Seq<u8>>) -> Option<Seq<char>> {
    if forall|i: int| 0 <= i < parts.len() ==> part_text(#[trigger] parts[i]) is Some {
        Some(text::joined(Seq::new(parts.len(), |i: int| part_text(parts[i])->0), "/"@))
    } else {
        None
    }
}

fn same_bytes(a: &Vec<u8>, b: &Vec<u8>) -> (same: bool)
    ensures
        same == (a@ == b@),
{
    if a.len() != b.len() {
        return false;
    }
    let mut i: usize = 0;
    while i < a.len()
        invariant
            i <= a@.len() == b@.len(),
            forall|j: int| 0 <= j < i ==> a@[j] == b@[j],
        decreases a@.len() - i,
    {
        if a[i] != b[i] {
            return false;
        }
        i = i + 1;
    }
    assert(a@ =~= b@);
    true
}

fn lies_under(path: &Vec<Vec<u8>>, base: &Vec<Vec<u8>>) -> (b: bool)
    ensures
        b == under(parts_view(path@), parts_view(base@)),
{
    if base.len() > path.len() {
        return false;
    }
    let mut i: usize = 0;
    while i < base.len()
        invariant
            i <= base@.len() <= path@.len(),
            forall|j: int|
                0 <= j < i ==> parts_view(path@)[j] == #[trigger] parts_view(base@)[j],
        decreases base@.len() - i,
    {
        let ghost part = parts_view(base@)[i as int];
        if !same_bytes(&path[i], &base[i]) {
            assert(parts_view(path@)[i as int] != part);
            return false;
        }
        i = i + 1;
    }
    true
}

/// The components from `from` on, joined by slashes.
fn slashed_from(path: &Vec<Vec<u8>>, from: usize) -> (r: Option<String>)
    requires
        from <= path@.len(),
    ensures
        match r {
            Some(s) => slashed(parts_view(path@).skip(from as int)) == Some(s@),
            None => slashed(parts_view(path@).skip(from as int)) is None,
        },
{
    let ghost rest = parts_view(path@).skip(from as int);
    let mut parts: Vec<String> = Vec::new();
    let mut i: usize = from;
    while i < path.len()
        invariant
            from <= i <= path@.len(),
            rest == parts_view(path@).skip(from as int),
            parts@.len() == i - from,
            forall|j: int|
                0 <= j < i - from ==> part_text(rest[j]) == Some((#[trigger] parts@[j])@),
        decreases path@.len() - i,
    {
        let ghost here = rest[i - from];
        assert(here == path@[i as int]@);
        let bytes = copy_bytes(&path[i]);
        assert(bytes@ == here);
        match utf8_text(bytes) {
            Ok(s) => {
                assert(part_text(rest[i - from]) == Some(s@));
                parts.push(s);
            },
            Err(_) => {
                assert(part_text(rest[i - from]) is None);
                return None;
            },
        }
        i = i + 1;
    }
    proof {
        assert forall|j: int| 0 <= j < rest.len() implies part_text(#[trigger] rest[j]) is Some by {
            assert(part_text(rest[j]) == Some(parts@[j]@));
        }
        assert(text::texts(parts@) =~= Seq::new(rest.len(), |j: int| part_text(rest[j])->0));
    }
    Some(join(&parts, "/"))
}

/// The path under which a file is delivered: relative to `base`, with slashes
/// on every system. Paths are given by the bytes of their components. `None`
/// where a component that stays is no text.
pub fn delivery_path(path: &Vec<Vec<u8>>, base: &Vec<Vec<u8>>) -> (r: Option<String>)
    ensures
        match r {
            Some(s) => slashed(relative(parts_view(path@), parts_view(base@))) == Some(s@),
            None => slashed(relative(parts_view(path@), parts_view(base@))) is None,
        },
{
    if lies_under(path, base) {
        slashed_from(path, base.len())
    } else {
        assert(parts_view(path@).skip(0) =~= parts_view(path@));
        slashed_from(path, 0)
    }
}

// ---------------------------------------------------------------------------
// Entries
// ---------------------------------------------------------------------------

/// A key of a file's metadata with its value, where it has one.
#[derive(Debug, PartialEq)]
pub struct KeyValue {
    pub key: String,
    pub value: Option<String>,
}

/// What the footer of a file says.
#[derive(Debug, PartialEq)]
pub struct Footer {
    pub metadata: Vec<KeyValue>,
    pub columns: Vec<ColumnEntry>,
    pub row_count: i64,
}

/// The value of the first entry with that key.
pub open spec fn value_of(metadata: Seq<KeyValue>, key: Seq<char>) -> Option<Seq<char>>
    decreases metadata.len(),
{
    if metadata.len() == 0 {
        None
    } else if metadata[0].key@ == key {
        text::optional_view(metadata[0].value)
    } else {
        value_of(metadata.drop_first(), key)
    }
}

/// An entry of that key stands in the metadata.
pub open spec fn has_key(metadata: Seq<KeyValue>, key: Seq<char>) -> bool {
    exists|i: int| 0 <= i < metadata.len() && (#[trigger] metadata[i]).key@ == key
}

/// Entries behind others count where those have no such key.
pub proof fn lemma_value_behind(before: Seq<KeyValue>, behind: Seq<KeyValue>, key: Seq<char>)
    ensures
        value_of(before + behind, key) == if has_key(before, key) {
            value_of(before, key)
        } else {
            value_of(behind, key)
        },
    decreases before.len(),
{
    if before.len() == 0 {
        assert(before + behind =~= behind);
    } else {
        let rest = before.drop_first();
        lemma_value_behind(rest, behind, key);
        assert((before + behind).drop_first() =~= rest + behind);
        assert(before[0].key@ == key ==> has_key(before, key));
        if has_key(rest, key) {
            let i = choose|i: int| 0 <= i < rest.len() && (#[trigger] rest[i]).key@ == key;
            assert(before[i + 1].key@ == key);
        }
        if has_key(before, key) && before[0].key@ != key {
            let i = choose|i: int| 0 <= i < before.len() && (#[trigger] before[i]).key@ == key;
            assert(rest[i - 1].key@ == key);
        }
    }
}

/// The metadata of a file holds those entries, in order.
pub open spec fn holds_entries(
    metadata: Seq<KeyValue>,
    entries: Seq<(Seq<char>, Seq<char>)>,
) -> bool {
    &&& metadata.len() == entries.len()
    &&& forall|i: int|
        #![trigger metadata[i]]
        0 <= i < metadata.len() ==> metadata[i].key@ == entries[i].0 && text::optional_view(metadata[i].value)
            == Some(entries[i].1)
}

/// What a table says of its provenance is read back from the file that it was
/// written to, whatever other keys stand before its own.
pub proof fn law_provenance_reads_back(
    t: Table,
    shapes: Seq<ShapeView>,
    geometry_type: Seq<char>,
    provenance: Provenance,
    before: Seq<KeyValue>,
    own: Seq<KeyValue>,
)
    requires
        t.is_of(shapes, geometry_type, provenance),
        holds_entries(own, geoparquet::entries(t.metadata@)),
        !has_key(before, "geo"@),
        !has_key(before, VIA_KEY@),
        !has_key(before, VINTAGE_KEY@),
    ensures
        value_of(before + own, "geo"@) == Some(geoparquet::entries(t.metadata@)[0].1),
        value_of(before + own, VIA_KEY@) == text::optional_view(provenance.via),
        value_of(before + own, VINTAGE_KEY@) == text::optional_view(provenance.vintage),
{
    lemma_value_behind(before, own, "geo"@);
    lemma_value_behind(before, own, VIA_KEY@);
    lemma_value_behind(before, own, VINTAGE_KEY@);
    reveal_strlit("geo");
    reveal_strlit("duck:via");
    reveal_strlit("duck:vintage");
    assert("geo"@.len() == 3 && VIA_KEY@.len() == 8 && VINTAGE_KEY@.len() == 12);
    assert(own[0].key@ == "geo"@);
    reveal_with_fuel(value_of, 4);
    if provenance.via is Some {
        assert(own[1].key@ == VIA_KEY@);
        if provenance.vintage is Some {
            assert(own[2].key@ == VINTAGE_KEY@);
        }
    } else if provenance.vintage is Some {
        assert(own[1].key@ == VINTAGE_KEY@);
    }
}

/// Looks a key up in a file's metadata.
pub fn key_value(metadata: &Vec<KeyValue>, key: &str) -> (r: Option<String>)
    ensures
        text::optional_view(r) == value_of(metadata@, key@),
{
    let mut i: usize = 0;
    assert(metadata@.skip(0) == metadata@);
    while i < metadata.len()
        invariant
            i <= metadata@.len(),
            value_of(metadata@, key@) == value_of(metadata@.skip(i as int), key@),
        decreases metadata@.len() - i,
    {
        assert(metadata@.skip(i as int)[0] == metadata@[i as int]);
        assert(metadata@.skip(i as int).drop_first() == metadata@.skip(i + 1));
        if same_text(metadata[i].key.as_str(), key) {
            return match &metadata[i].value {
                Some(v) => Some(v.clone()),
                None => None,
            };
        }
        i = i + 1;
    }
    None
}

/// Why a file has no place in the catalog.
#[derive(Debug, PartialEq)]
pub enum CatalogError {
    /// The name of the file belongs to no dataset.
    UnknownDataset(String),
    /// The file should have geometry but no `geo` metadata.
    NoGeoMetadata(String),
    Geo(GeoError),
    /// There are no files.
    NoFiles,
}

/// The view of a [`CatalogError`].
pub enum CatalogFault {
    UnknownDataset(Seq<char>),
    NoGeoMetadata(Seq<char>),
    Geo(GeoFault),
    NoFiles,
}

impl View for CatalogError {
    type V = CatalogFault;

    open spec fn view(&self) -> CatalogFault {
        match self {
            CatalogError::UnknownDataset(file) => CatalogFault::UnknownDataset(file@),
            CatalogError::NoGeoMetadata(file) => CatalogFault::NoGeoMetadata(file@),
            CatalogError::Geo(e) => CatalogFault::Geo(e@),
            CatalogError::NoFiles => CatalogFault::NoFiles,
        }
    }
}

impl CatalogFault {
    pub open spec fn spec_text(self) -> Seq<char> {
        match self {
            CatalogFault::UnknownDataset(file) => "未知のデータセットです: "@ + file,
            CatalogFault::NoGeoMetadata(file) => "GeoParquetの `geo` メタデータがありません: "@ + file,
            CatalogFault::Geo(e) => e.spec_text(),
            CatalogFault::NoFiles => "GeoParquetがありません"@,
        }
    }
}

impl CatalogError {
    pub fn to_string(&self) -> (text: String)
        ensures
            text@ == self@.spec_text(),
    {
        match self {
            CatalogError::UnknownDataset(file) => {
                let mut text = "未知のデータセットです: ".to_string();
                text.append(file.as_str());
                text
            },
            CatalogError::NoGeoMetadata(file) => {
                let mut text = "GeoParquetの `geo` メタデータがありません: ".to_string();
                text.append(file.as_str());
                text
            },
            CatalogError::Geo(e) => e.to_string(),
            CatalogError::NoFiles => "GeoParquetがありません".to_string(),
        }
    }
}

/// The geometry types and bounds of a file by its `geo` metadata, which only
/// files without geometry may lack.
pub open spec fn file_facts(file: Seq<char>, kind: DatasetKind, geo: Option<Seq<char>>) -> Result<
    (Seq<Seq<char>>, Option<Bounds>),
    CatalogFault,
> {
    match geo {
        Some(text) => match geo_facts_in_text(text) {
            Ok(facts) => Ok(facts),
            Err(e) => Err(CatalogFault::Geo(e)),
        },
        None => if kind.spec_names_only() {
            Ok((Seq::empty(), None))
        } else {
            Err(CatalogFault::NoGeoMetadata(file))
        },
    }
}

/// The vocabularies of a file as a map from columns to values.
pub open spec fn summary_map(summaries: Seq<Summary>) -> Map<Seq<char>, Seq<Seq<char>>>
    decreases summaries.len(),
{
    if summaries.len() == 0 {
        Map::empty()
    } else {
        summary_map(summaries.drop_last()).insert(
            summaries.last().column@,
            text::texts(summaries.last().values@),
        )
    }
}

/// The vocabularies found for the first `n` summary columns.
pub open spec fn found_map(
    columns: Seq<Seq<char>>,
    vocabularies: Seq<Option<Vec<String>>>,
    n: int,
) -> Map<Seq<char>, Seq<Seq<char>>>
    decreases n,
{
    if n <= 0 {
        Map::empty()
    } else if n <= vocabularies.len() && vocabularies[n - 1] is Some {
        found_map(columns, vocabularies, n - 1).insert(
            columns[n - 1],
            text::texts(vocabularies[n - 1]->0@),
        )
    } else {
        found_map(columns, vocabularies, n - 1)
    }
}

/// Columns come in order, none of them twice.
pub open spec fn summaries_ordered(summaries: Seq<Summary>) -> bool {
    forall|i: int, j: int|
        0 <= i < j < summaries.len() ==> text::lex_less(
            (#[trigger] summaries[i]).column@,
            (#[trigger] summaries[j]).column@,
        )
}

/// `summaries` has a vocabulary for that column.
pub open spec fn has_column(summaries: Seq<Summary>, column: Seq<char>) -> bool {
    exists|k: int| 0 <= k < summaries.len() && (#[trigger] summaries[k]).column@ == column
}

proof fn lemma_summary_map_insert(s: Seq<Summary>, x: Summary, at: int)
    requires
        0 <= at <= s.len(),
        forall|k: int| at <= k < s.len() ==> (#[trigger] s[k]).column@ != x.column@,
    ensures
        summary_map(s.insert(at, x)) == summary_map(s).insert(x.column@, text::texts(x.values@)),
    decreases s.len(),
{
    let t = s.insert(at, x);
    if at == s.len() {
        assert(t.drop_last() == s);
        assert(t.last() == x);
    } else {
        let last = s.last();
        assert(t.last() == last);
        assert(t.drop_last() =~= s.drop_last().insert(at, x));
        assert forall|k: int| at <= k < s.drop_last().len() implies (
        #[trigger] s.drop_last()[k]).column@ != x.column@ by {
            assert(s.drop_last()[k] == s[k]);
        }
        lemma_summary_map_insert(s.drop_last(), x, at);
        assert(s[s.len() - 1].column@ != x.column@);
        assert(summary_map(t) =~= summary_map(s).insert(x.column@, text::texts(x.values@)));
    }
}

/// Adds a vocabulary in its column's place; the column is not there yet.
fn insert_summary(list: &mut Vec<Summary>, column: &String, values: Vec<String>)
    requires
        summaries_ordered(old(list)@),
        !has_column(old(list)@, column@),
    ensures
        summaries_ordered(final(list)@),
        summary_map(final(list)@) == summary_map(old(list)@).insert(
            column@,
            text::texts(values@),
        ),
        final(list)@.len() == old(list)@.len() + 1,
        forall|c: Seq<char>| #[trigger]
            has_column(final(list)@, c) ==> c == column@ || has_column(old(list)@, c),
{
    let mut at: usize = 0;
    while at < list.len() && text_less(list[at].column.as_str(), column.as_str())
        invariant
            at <= list@.len(),
            list@ == old(list)@,
            forall|k: int|
                0 <= k < at ==> text::lex_less((#[trigger] list@[k]).column@, column@),
        decreases list@.len() - at,
    {
        at = at + 1;
    }
    let ghost before = list@;
    let x = Summary { column: column.clone(), values };
    proof {
        lemma_summary_map_insert(before, x, at as int);
        let t = before.insert(at as int, x);
        if at < before.len() {
            text::lemma_lex_total(before[at as int].column@, column@);
        }
        assert forall|i: int, j: int| 0 <= i < j < t.len() implies text::lex_less(
            (#[trigger] t[i]).column@,
            (#[trigger] t[j]).column@,
        ) by {
            if i == at {
                assert(t[j] == before[j - 1]);
                if j - 1 > at {
                    text::lemma_lex_transitive(
                        column@,
                        before[at as int].column@,
                        before[j - 1].column@,
                    );
                }
            } else if j == at {
                assert(t[i] == before[i]);
            } else {
                let a = if i < at {
                    i
                } else {
                    i - 1
                };
                let b = if j < at {
                    j
                } else {
                    j - 1
                };
                assert(t[i] == before[a] && t[j] == before[b]);
            }
        }
        assert forall|c: Seq<char>| #[trigger] has_column(t, c) implies c == column@ || has_column(
            before,
            c,
        ) by {
            let k = choose|k: int| 0 <= k < t.len() && (#[trigger] t[k]).column@ == c;
            if k < at {
                assert(before[k].column@ == c);
            } else if k > at {
                assert(before[k - 1].column@ == c);
            }
        }
    }
    list.insert(at, x);
}

/// The vocabularies found for the summary columns of a kind, in column order.
fn collect_summaries(kind: DatasetKind, vocabularies: &Vec<Option<Vec<String>>>) -> (list: Vec<
    Summary,
>)
    ensures
        summaries_ordered(list@),
        summary_map(list@) == found_map(
            kind.spec_summary_columns(),
            vocabularies@,
            kind.spec_summary_columns().len() as int,
        ),
{
    let columns = kind.summary_columns();
    let ghost names = kind.spec_summary_columns();
    proof {
        reveal_strlit("railway_class");
        reveal_strlit("institution_type");
        assert("railway_class"@.len() != "institution_type"@.len());
    }
    let mut list: Vec<Summary> = Vec::new();
    let mut i: usize = 0;
    while i < columns.len()
        invariant
            i <= columns@.len(),
            names == text::texts(columns@),
            forall|a: int, b: int| 0 <= a < b < names.len() ==> names[a] != names[b],
            summaries_ordered(list@),
            summary_map(list@) == found_map(names, vocabularies@, i as int),
            forall|c: Seq<char>| #[trigger]
                has_column(list@, c) ==> exists|k: int| 0 <= k < i && names[k] == c,
        decreases columns@.len() - i,
    {
        assert(names[i as int] == columns@[i as int]@);
        if i < vocabularies.len() {
            match &vocabularies[i] {
                Some(values) => {
                    insert_summary(&mut list, &columns[i], copy_texts(values));
                },
                None => {},
            }
        }
        i = i + 1;
    }
    list
}

fn copy_columns(columns: &Vec<ColumnEntry>) -> (copy: Vec<ColumnEntry>)
    ensures
        columns_view(copy@) == columns_view(columns@),
{
    let mut copy: Vec<ColumnEntry> = Vec::new();
    let mut i: usize = 0;
    while i < columns.len()
        invariant
            i <= columns@.len(),
            copy@.len() == i,
            forall|j: int|
                0 <= j < i ==> (#[trigger] copy@[j]).name@ == columns@[j].name@
                    && copy@[j].data_type@ == columns@[j].data_type@,
        decreases columns@.len() - i,
    {
        copy.push(
            ColumnEntry { name: columns[i].name.clone(), data_type: columns[i].data_type.clone() },
        );
        i = i + 1;
    }
    assert(columns_view(copy@) =~= columns_view(columns@));
    copy
}

/// The names and types of columns.
pub open spec fn columns_view(columns: Seq<ColumnEntry>) -> Seq<(Seq<char>, Seq<char>)> {
    Seq::new(columns.len(), |i: int| (columns[i].name@, columns[i].data_type@))
}

impl DatasetEntry {
    /// The entry describes a file of that name, path and footer.
    pub open spec fn is_for(
        self,
        stem: Seq<char>,
        file: Seq<char>,
        d: Description,
        footer: Footer,
        vocabularies: Seq<Option<Vec<String>>>,
    ) -> bool {
        &&& self.id@ == stem
        &&& self.file@ == file
        &&& self.kind == d.kind
        &&& self.collection == d.collection
        &&& self.title == d.title
        &&& self.description == d.description
        &&& self.attribution == d.attribution
        &&& self.mesh_digits == d.mesh_digits
        &&& self.collection_via == d.via
        &&& file_facts(file, d.kind, value_of(footer.metadata@, "geo"@)) == Ok::<
            (Seq<Seq<char>>, Option<Bounds>),
            CatalogFault,
        >((text::texts(self.geometry_types@), self.bbox))
        &&& self.row_count == footer.row_count
        &&& columns_view(self.columns@) == columns_view(footer.columns@)
        &&& text::optional_view(self.via) == value_of(footer.metadata@, VIA_KEY@)
        &&& text::optional_view(self.vintage) == value_of(footer.metadata@, VINTAGE_KEY@)
        &&& summaries_ordered(self.summaries@)
        &&& summary_map(self.summaries@) == found_map(
            d.kind.spec_summary_columns(),
            vocabularies,
            d.kind.spec_summary_columns().len() as int,
        )
    }
}

/// The catalog entry for a file, from its name, its delivery path, its footer,
/// and the vocabularies found for the summary columns of its kind, in order.
pub fn describe_parquet(
    file_stem: &str,
    file: &str,
    footer: &Footer,
    vocabularies: &Vec<Option<Vec<String>>>,
) -> (r: Result<DatasetEntry, CatalogError>)
    ensures
        match r {
            Ok(entry) => datasets::described(file_stem@) is Some && entry.is_for(
                file_stem@,
                file@,
                datasets::described(file_stem@)->0,
                *footer,
                vocabularies@,
            ),
            Err(e) => match datasets::described(file_stem@) {
                None => e@ == CatalogFault::UnknownDataset(file@),
                Some(d) => file_facts(file@, d.kind, value_of(footer.metadata@, "geo"@)) == Err::<
                    (Seq<Seq<char>>, Option<Bounds>),
                    CatalogFault,
                >(e@),
            },
        },
{
    let described = match describe(file_stem) {
        Some(d) => d,
        None => {
            return Err(CatalogError::UnknownDataset(file.to_string()));
        },
    };
    let (geometry_types, bbox) = match key_value(&footer.metadata, "geo") {
        Some(geo_json) => match read_geo_metadata(geo_json.as_str()) {
            Ok(facts) => facts,
            Err(e) => {
                return Err(CatalogError::Geo(e));
            },
        },
        None => {
            if described.kind.names_only() {
                let none: Vec<String> = Vec::new();
                assert(text::texts(none@) =~= Seq::<Seq<char>>::empty());
                (none, None)
            } else {
                return Err(CatalogError::NoGeoMetadata(file.to_string()));
            }
        },
    };
    Ok(
        DatasetEntry {
            id: file_stem.to_string(),
            file: file.to_string(),
            kind: described.kind,
            collection: described.collection,
            title: described.title,
            description: described.description,
            attribution: described.attribution,
            geometry_types,
            bbox,
            row_count: footer.row_count,
            columns: copy_columns(&footer.columns),
            summaries: collect_summaries(described.kind, vocabularies),
            mesh_digits: described.mesh_digits,
            via: key_value(&footer.metadata, VIA_KEY),
            vintage: key_value(&footer.metadata, VINTAGE_KEY),
            collection_via: described.via,
        },
    )
}

/// A file as it was read: its name without extension, its delivery path, its
/// footer and its vocabularies.
#[derive(Debug, PartialEq)]
pub struct ReadFile {
    pub stem: String,
    pub file: String,
    pub footer: Footer,
    pub vocabularies: Vec<Option<Vec<String>>>,
}

impl ReadFile {
    /// What stands against an entry for this file.
    pub open spec fn problem(self) -> Option<CatalogFault> {
        match datasets::described(self.stem@) {
            None => Some(CatalogFault::UnknownDataset(self.file@)),
            Some(d) => match file_facts(self.file@, d.kind, value_of(self.footer.metadata@, "geo"@)) {
                Ok(_) => None,
                Err(e) => Some(e),
            },
        }
    }

    pub open spec fn has_entry(self, entry: DatasetEntry) -> bool {
        datasets::described(self.stem@) is Some && entry.is_for(
            self.stem@,
            self.file@,
            datasets::described(self.stem@)->0,
            self.footer,
            self.vocabularies@,
        )
    }
}

/// The first problem among files.
pub open spec fn first_problem(files: Seq<ReadFile>) -> Option<CatalogFault>
    decreases files.len(),
{
    if files.len() == 0 {
        None
    } else if files[0].problem() is Some {
        files[0].problem()
    } else {
        first_problem(files.drop_first())
    }
}

/// The entries for files in order. The first file without a place in the
/// catalog, or a lack of files, is an error.
pub fn build_catalog(files: &Vec<ReadFile>) -> (r: Result<Vec<DatasetEntry>, CatalogError>)
    ensures
        match r {
            Ok(entries) => {
                &&& files@.len() > 0
                &&& first_problem(files@) is None
                &&& entries@.len() == files@.len()
                &&& forall|i: int|
                    #![trigger entries@[i]]
                    0 <= i < files@.len() ==> files@[i].has_entry(entries@[i])
            },
            Err(e) => if files@.len() == 0 {
                e@ == CatalogFault::NoFiles
            } else {
                first_problem(files@) == Some(e@)
            },
        },
{
    if files.len() == 0 {
        return Err(CatalogError::NoFiles);
    }
    let mut entries: Vec<DatasetEntry> = Vec::new();
    let mut i: usize = 0;
    assert(files@.skip(0) == files@);
    while i < files.len()
        invariant
            files@.len() > 0,
            i <= files@.len(),
            entries@.len() == i,
            first_problem(files@) == first_problem(files@.skip(i as int)),
            forall|j: int|
                #![trigger entries@[j]]
                0 <= j < i ==> files@[j].has_entry(entries@[j]),
        decreases files@.len() - i,
    {
        assert(files@.skip(i as int)[0] == files@[i as int]);
        assert(files@.skip(i as int).drop_first() == files@.skip(i + 1));
        let f = &files[i];
        match describe_parquet(f.stem.as_str(), f.file.as_str(), &f.footer, &f.vocabularies) {
            Ok(entry) => {
                entries.push(entry);
            },
            Err(e) => {
                return Err(e);
            },
        }
        i = i + 1;
    }
    Ok(entries)
}

/// Whatever reads like the metadata of a file gives its geometry types back.
pub proof fn law_geometry_types_read_back(
    primary: Seq<char>,
    covering: geoparquet::CoveringView,
    geometry_types: Seq<Seq<char>>,
    bbox: Seq<Real>,
    read: JsonView,
)
    requires
        json::alike(geoparquet::geo_view(primary, covering, geometry_types, bbox), read, 127),
    ensures
        geo_facts(read) is Ok,
        geo_facts(read)->Ok_0.0 == geometry_types,
{
    geoparquet::lemma_member_names();
    let geo = geoparquet::geo_view(primary, covering, geometry_types, bbox);
    json::lemma_alike_member(geo, read, 127, "primary_column"@);
    json::lemma_alike_member(geo, read, 127, "columns"@);
    let columns = geo.member("columns"@)->0;
    let read_columns = read.member("columns"@)->0;
    json::lemma_alike_member(columns, read_columns, 126, primary);
    let column = columns.member(primary)->0;
    let read_column = read_columns.member(primary)->0;
    json::lemma_alike_member(column, read_column, 125, "geometry_types"@);
    let items = json::text_array(geometry_types)->Array_0;
    match read_column.member("geometry_types"@) {
        Some(JsonView::Array(seen)) => {
            assert forall|i: int| 0 <= i < seen.len() implies seen[i] == JsonView::Text(
                geometry_types[i],
            ) by {
                assert(json::alike(items[i], seen[i], 123));
            }
            lemma_texts_in(seen, geometry_types);
        },
        _ => {},
    }
}

proof fn lemma_texts_in(items: Seq<JsonView>, list: Seq<Seq<char>>)
    requires
        items.len() == list.len(),
        forall|i: int| 0 <= i < items.len() ==> items[i] == JsonView::Text(list[i]),
    ensures
        json::texts_in(items) == list,
    decreases items.len(),
{
    if items.len() > 0 {
        lemma_texts_in(items.drop_last(), list.drop_last());
        assert(list.drop_last().push(list.last()) =~= list);
    } else {
        assert(list =~= Seq::<Seq<char>>::empty());
    }
}

/// The entry for a file goes by the table of datasets.
pub proof fn law_entries_go_by_the_table(
    entry: DatasetEntry,
    stem: Seq<char>,
    file: Seq<char>,
    footer: Footer,
    vocabularies: Seq<Option<Vec<String>>>,
)
    requires
        datasets::described(stem) is Some,
        entry.is_for(stem, file, datasets::described(stem)->0, footer, vocabularies),
    ensures
        crate::stac::by_the_table(entry),
{
    let table = datasets::spec_descriptions();
    let k = lemma_described_in(table, stem);
    assert(entry.kind == table[k].1.kind);
}

proof fn lemma_described_in(table: Seq<(Seq<char>, Description)>, stem: Seq<char>) -> (k: int)
    requires
        datasets::first_described(table, stem) is Some,
    ensures
        0 <= k < table.len(),
        datasets::first_described(table, stem) == Some(table[k].1),
    decreases table.len(),
{
    if text::has_prefix(stem, table[0].0) {
        0
    } else {
        let k = lemma_described_in(table.drop_first(), stem);
        assert(table.drop_first()[k] == table[k + 1]);
        k + 1
    }
}

/// A key leads to the value of the first entry that has it, and to nothing
/// where none has it.
pub proof fn law_the_first_entry_of_a_key_counts(metadata: Seq<KeyValue>, key: Seq<char>, i: int)
    requires
        0 <= i < metadata.len(),
        metadata[i].key@ == key,
        forall|j: int| #![trigger metadata[j]] 0 <= j < i ==> metadata[j].key@ != key,
    ensures
        value_of(metadata, key) == text::optional_view(metadata[i].value),
    decreases i,
{
    if i > 0 {
        let rest = metadata.drop_first();
        assert(metadata[0].key@ != key);
        assert(rest[i - 1] == metadata[i]);
        assert(forall|j: int|
            #![trigger rest[j]]
            0 <= j < rest.len() ==> rest[j] == metadata[j + 1]);
        law_the_first_entry_of_a_key_counts(rest, key, i - 1);
    }
}

/// A key that no entry has leads to nothing.
pub proof fn law_missing_keys_have_no_value(metadata: Seq<KeyValue>, key: Seq<char>)
    requires
        !has_key(metadata, key),
    ensures
        value_of(metadata, key) is None,
    decreases metadata.len(),
{
    if metadata.len() > 0 {
        let rest = metadata.drop_first();
        assert(metadata[0].key@ != key);
        if has_key(rest, key) {
            let i = choose|i: int| 0 <= i < rest.len() && (#[trigger] rest[i]).key@ == key;
            assert(metadata[i + 1].key@ == key);
        }
        law_missing_keys_have_no_value(rest, key);
    }
}

/// Four numbers in the definition of a column are its bounds: west, south, east
/// and north, in this order. With more or fewer of them it has none.
pub proof fn law_bounds_come_in_order(
    column: JsonView,
    items: Seq<JsonView>,
    a: Real,
    b: Real,
    c: Real,
    d: Real,
)
    requires
        column.member("bbox"@) == Some(JsonView::Array(items)),
    ensures
        items.len() == 4 && json::json_number(items[0]) == Some(a) && json::json_number(items[1])
            == Some(b) && json::json_number(items[2]) == Some(c) && json::json_number(items[3])
            == Some(d) ==> column_facts(column).1 == Some(
            Bounds { xmin: a, ymin: b, xmax: c, ymax: d },
        ),
        numbers_in(items).len() != 4 ==> column_facts(column).1 is None,
{
    if items.len() == 4 && json::json_number(items[0]) == Some(a) && json::json_number(items[1])
        == Some(b) && json::json_number(items[2]) == Some(c) && json::json_number(items[3]) == Some(
        d,
    ) {
        let three = items.drop_last();
        let two = three.drop_last();
        let one = two.drop_last();
        assert(one.drop_last().len() == 0);
        assert(numbers_in(one.drop_last()) =~= Seq::<Real>::empty());
        assert(numbers_in(one) =~= seq![a]);
        assert(numbers_in(two) =~= seq![a, b]);
        assert(numbers_in(three) =~= seq![a, b, c]);
        assert(numbers_in(items) =~= seq![a, b, c, d]);
    }
}

/// What lies below a directory is named from there on, and anything else in
/// full.
pub proof fn law_paths_are_told_from_the_base(
    base: Seq<Seq<u8>>,
    rest: Seq<Seq<u8>>,
    path: Seq<Seq<u8>>,
)
    ensures
        relative(base + rest, base) == rest,
        !under(path, base) ==> relative(path, base) == path,
        under(path, base) ==> base + relative(path, base) == path,
{
    assert((base + rest).skip(base.len() as int) =~= rest);
    if under(path, base) {
        assert(base + path.skip(base.len() as int) =~= path);
    }
}

/// A column that goes into the catalog has the vocabulary that was found for it,
/// and none where none was found.
pub proof fn law_vocabularies_stand_by_their_column(
    columns: Seq<Seq<char>>,
    vocabularies: Seq<Option<Vec<String>>>,
    n: int,
    k: int,
)
    requires
        0 <= k < n <= columns.len(),
        vocabularies.len() == columns.len(),
        forall|i: int, j: int|
            #![trigger columns[i], columns[j]]
            0 <= i < j < columns.len() ==> columns[i] != columns[j],
    ensures
        vocabularies[k] is Some ==> found_map(columns, vocabularies, n).contains_key(columns[k])
            && found_map(columns, vocabularies, n)[columns[k]] == text::texts(
            vocabularies[k]->0@,
        ),
        vocabularies[k] is None ==> !found_map(columns, vocabularies, n).contains_key(columns[k]),
    decreases n,
{
    if k < n - 1 {
        law_vocabularies_stand_by_their_column(columns, vocabularies, n - 1, k);
        assert(columns[k] != columns[n - 1]);
    } else {
        lemma_not_found_yet(columns, vocabularies, n - 1, k);
    }
}

proof fn lemma_not_found_yet(
    columns: Seq<Seq<char>>,
    vocabularies: Seq<Option<Vec<String>>>,
    n: int,
    k: int,
)
    requires
        n <= k < columns.len(),
        forall|i: int, j: int|
            #![trigger columns[i], columns[j]]
            0 <= i < j < columns.len() ==> columns[i] != columns[j],
    ensures
        !found_map(columns, vocabularies, n).contains_key(columns[k]),
    decreases n,
{
    if n > 0 {
        lemma_not_found_yet(columns, vocabularies, n - 1, k);
        assert(columns[n - 1] != columns[k]);
    }
}

/// The problem that is reported is that of the first file that has one.
pub proof fn law_the_first_problem_is_reported(files: Seq<ReadFile>, i: int)
    requires
        0 <= i < files.len(),
        files[i].problem() is Some,
        forall|j: int| #![trigger files[j]] 0 <= j < i ==> files[j].problem() is None,
    ensures
        first_problem(files) == files[i].problem(),
    decreases i,
{
    if i > 0 {
        let rest = files.drop_first();
        assert(files[0].problem() is None);
        assert(rest[i - 1] == files[i]);
        assert(forall|j: int|
            #![trigger rest[j]]
            0 <= j < rest.len() ==> rest[j] == files[j + 1]);
        law_the_first_problem_is_reported(rest, i - 1);
    }
}

/// A file without `geo` metadata is taken for one of names alone where its kind
/// is such, and refused otherwise. With it, it has the types and the bounds
/// that the metadata declares.
pub proof fn law_only_names_lack_geometry(
    file: Seq<char>,
    kind: DatasetKind,
    geo: Seq<char>,
)
    ensures
        kind == DatasetKind::AdminNames || kind == DatasetKind::RoadRoute ==> file_facts(
            file,
            kind,
            None,
        ) == Ok::<(Seq<Seq<char>>, Option<Bounds>), CatalogFault>((Seq::empty(), None)),
        kind != DatasetKind::AdminNames && kind != DatasetKind::RoadRoute ==> file_facts(
            file,
            kind,
            None,
        ) == Err::<(Seq<Seq<char>>, Option<Bounds>), CatalogFault>(
            CatalogFault::NoGeoMetadata(file),
        ),
        geo_facts_in_text(geo) is Ok ==> file_facts(file, kind, Some(geo)) == Ok::<
            (Seq<Seq<char>>, Option<Bounds>),
            CatalogFault,
        >(geo_facts_in_text(geo)->Ok_0),
        geo_facts_in_text(geo) is Err ==> file_facts(file, kind, Some(geo)) is Err,
{
}

/// An entry says of its file what its footer and its name say: the rows, the
/// columns in order, and where it comes from and of what date it is, under the
/// keys `duck:via` and `duck:vintage`.
pub proof fn law_entries_say_what_the_footer_says(
    entry: DatasetEntry,
    stem: Seq<char>,
    file: Seq<char>,
    d: Description,
    footer: Footer,
    vocabularies: Seq<Option<Vec<String>>>,
    k: int,
)
    requires
        entry.is_for(stem, file, d, footer, vocabularies),
        0 <= k < footer.columns@.len(),
    ensures
        entry.id@ == stem,
        entry.file@ == file,
        entry.kind == d.kind,
        entry.collection@ == d.collection@,
        entry.title@ == d.title@,
        entry.description@ == d.description@,
        entry.attribution == d.attribution,
        entry.mesh_digits == d.mesh_digits,
        entry.collection_via@ == d.via@,
        entry.row_count == footer.row_count,
        entry.columns@.len() == footer.columns@.len(),
        entry.columns@[k].name@ == footer.columns@[k].name@,
        entry.columns@[k].data_type@ == footer.columns@[k].data_type@,
        text::optional_view(entry.via) == value_of(footer.metadata@, "duck:via"@),
        text::optional_view(entry.vintage) == value_of(footer.metadata@, "duck:vintage"@),
{
    let a = columns_view(entry.columns@);
    let b = columns_view(footer.columns@);
    assert(a.len() == entry.columns@.len() && b.len() == footer.columns@.len());
    assert(a[k] == b[k]);
}

} // verus!
