//! The `geo` metadata of GeoParquet 1.1.
use crate::geo;
use crate::geo::{bounds_of_shape, Bounds, Coord, Polygon, PolygonView, Shape, ShapeView};
use crate::json;
use crate::json::{
    json_array, json_as_array, json_as_str, json_get, json_object, json_parse, json_put, json_real,
    json_string, json_texts, json_write, show_values, texts_among, JsonView,
};
use crate::number::Real;
use crate::text;
use crate::text::{quote, same_text, to_upper, trim};
use arrow::datatypes::{ArrowPrimitiveType, Float64Type};
use vstd::prelude::*;

verus! {

/// The metadata key for the place that a file was made from.
pub const VIA_KEY: &'static str = "duck:via";

/// The metadata key for the date of the data.
pub const VINTAGE_KEY: &'static str = "duck:vintage";

/// The columns that `covering.bbox` points to. Paths have two parts here, the
/// struct column and the field in it.
#[derive(Debug, PartialEq)]
pub struct CoveringBbox {
    /// The struct column with the four fields.
    pub column: String,
    pub xmin: String,
    pub ymin: String,
    pub xmax: String,
    pub ymax: String,
}

/// The view of a [`CoveringBbox`].
#[verifier::ext_equal]
pub struct CoveringView {
    pub column: Seq<char>,
    pub xmin: Seq<char>,
    pub ymin: Seq<char>,
    pub xmax: Seq<char>,
    pub ymax: Seq<char>,
}

impl View for CoveringBbox {
    type V = CoveringView;

    open spec fn view(&self) -> CoveringView {
        CoveringView {
            column: self.column@,
            xmin: self.xmin@,
            ymin: self.ymin@,
            xmax: self.xmax@,
            ymax: self.ymax@,
        }
    }
}

/// A side of a bounding box.
#[derive(Debug, Clone, Copy, PartialEq, Eq, Structural)]
pub enum Side {
    Xmin,
    Ymin,
    Xmax,
    Ymax,
}

impl Side {
    pub open spec fn spec_name(self) -> Seq<char> {
        match self {
            Side::Xmin => "xmin"@,
            Side::Ymin => "ymin"@,
            Side::Xmax => "xmax"@,
            Side::Ymax => "ymax"@,
        }
    }

    pub fn name(&self) -> (name: &'static str)
        ensures
            name@ == self.spec_name(),
    {
        match self {
            Side::Xmin => "xmin",
            Side::Ymin => "ymin",
            Side::Xmax => "xmax",
            Side::Ymax => "ymax",
        }
    }
}

/// Why `geo` metadata could not be read.
#[derive(Debug, PartialEq)]
pub enum GeoError {
    /// The text cannot be read, for that reason.
    NotJson(String),
    NoPrimaryColumn,
    NoColumnDefinition,
    /// The primary column, of that name, has no covering.
    NoCovering(String),
    NoPath(Side),
    /// Not a path of a column and a field, but that.
    BadPath(Side, String),
    /// The four paths lead into more than one column; these are the first two.
    SeveralColumns(String, String),
}

/// The view of a [`GeoError`].
pub enum GeoFault {
    NotJson(Seq<char>),
    NoPrimaryColumn,
    NoColumnDefinition,
    NoCovering(Seq<char>),
    NoPath(Side),
    BadPath(Side, Seq<char>),
    SeveralColumns(Seq<char>, Seq<char>),
}

impl View for GeoError {
    type V = GeoFault;

    open spec fn view(&self) -> GeoFault {
        match self {
            GeoError::NotJson(cause) => GeoFault::NotJson(cause@),
            GeoError::NoPrimaryColumn => GeoFault::NoPrimaryColumn,
            GeoError::NoColumnDefinition => GeoFault::NoColumnDefinition,
            GeoError::NoCovering(primary) => GeoFault::NoCovering(primary@),
            GeoError::NoPath(side) => GeoFault::NoPath(*side),
            GeoError::BadPath(side, path) => GeoFault::BadPath(*side, path@),
            GeoError::SeveralColumns(first, other) => GeoFault::SeveralColumns(first@, other@),
        }
    }
}

impl GeoFault {
    pub open spec fn spec_text(self) -> Seq<char> {
        match self {
            GeoFault::NotJson(cause) => "`geo` メタデータがJSONとして読めない: "@ + cause,
            GeoFault::NoPrimaryColumn => "primary_column がない"@,
            GeoFault::NoColumnDefinition => "primary_column に対応する定義がない"@,
            GeoFault::NoCovering(primary) => "`"@ + primary
                + "` に covering.bbox がない (GeoParquet 1.1 の covering が必要)"@,
            GeoFault::NoPath(side) => "covering.bbox."@ + side.spec_name() + " がない"@,
            GeoFault::BadPath(side, path) => "covering.bbox."@ + side.spec_name()
                + " が [列名, フィールド名] の形ではない: "@ + path,
            GeoFault::SeveralColumns(first, other) => "covering.bbox が複数の列にまたがっている: "@
                + first + " と "@ + other,
        }
    }
}

impl GeoError {
    pub fn to_string(&self) -> (text: String)
        ensures
            text@ == self@.spec_text(),
    {
        let mut text = String::new();
        match self {
            GeoError::NotJson(cause) => {
                text.append("`geo` メタデータがJSONとして読めない: ");
                text.append(cause.as_str());
            },
            GeoError::NoPrimaryColumn => {
                text.append("primary_column がない");
            },
            GeoError::NoColumnDefinition => {
                text.append("primary_column に対応する定義がない");
            },
            GeoError::NoCovering(primary) => {
                text.append("`");
                text.append(primary.as_str());
                text.append("` に covering.bbox がない (GeoParquet 1.1 の covering が必要)");
            },
            GeoError::NoPath(side) => {
                text.append("covering.bbox.");
                text.append(side.name());
                text.append(" がない");
            },
            GeoError::BadPath(side, path) => {
                text.append("covering.bbox.");
                text.append(side.name());
                text.append(" が [列名, フィールド名] の形ではない: ");
                text.append(path.as_str());
            },
            GeoError::SeveralColumns(first, other) => {
                text.append("covering.bbox が複数の列にまたがっている: ");
                text.append(first.as_str());
                text.append(" と ");
                text.append(other.as_str());
            },
        }
        text
    }
}

// ---------------------------------------------------------------------------
// Reading
// ---------------------------------------------------------------------------

/// The name and the definition of the primary column.
pub open spec fn primary_definition(geo: JsonView) -> Result<(Seq<char>, JsonView), GeoFault> {
    match json::member_of(Some(geo), "primary_column"@) {
        Some(JsonView::Text(primary)) => match json::member_of(geo.member("columns"@), primary) {
            Some(column) => Ok((primary, column)),
            None => Err(GeoFault::NoColumnDefinition),
        },
        _ => Err(GeoFault::NoPrimaryColumn),
    }
}

/// The two parts of the path for one side. Items of the path that are no text
/// do not count.
pub open spec fn path_of(bbox: JsonView, side: Side) -> Result<(Seq<char>, Seq<char>), GeoFault> {
    match bbox.member(side.spec_name()) {
        Some(JsonView::Array(items)) => {
            let parts = json::texts_in(items);
            if parts.len() == 2 {
                Ok((parts[0], parts[1]))
            } else {
                Err(GeoFault::BadPath(side, json::json_shown(items)))
            }
        },
        _ => Err(GeoFault::NoPath(side)),
    }
}

/// The path for one side, in a column that is already known.
pub open spec fn path_in(bbox: JsonView, side: Side, column: Seq<char>) -> Result<
    Seq<char>,
    GeoFault,
> {
    match path_of(bbox, side) {
        Ok((c, field)) => if c == column {
            Ok(field)
        } else {
            Err(GeoFault::SeveralColumns(column, c))
        },
        Err(e) => Err(e),
    }
}

/// The four paths, all in the column of the first.
pub open spec fn covering_paths(bbox: JsonView) -> Result<CoveringView, GeoFault> {
    match path_of(bbox, Side::Xmin) {
        Err(e) => Err(e),
        Ok((column, xmin)) => match path_in(bbox, Side::Ymin, column) {
            Err(e) => Err(e),
            Ok(ymin) => match path_in(bbox, Side::Xmax, column) {
                Err(e) => Err(e),
                Ok(xmax) => match path_in(bbox, Side::Ymax, column) {
                    Err(e) => Err(e),
                    Ok(ymax) => Ok(CoveringView { column, xmin, ymin, xmax, ymax }),
                },
            },
        },
    }
}

/// What `geo` metadata says of the covering.
pub open spec fn covering_in(geo: JsonView) -> Result<CoveringView, GeoFault> {
    match primary_definition(geo) {
        Err(e) => Err(e),
        Ok((primary, column)) => match json::member_of(column.member("covering"@), "bbox"@) {
            None => Err(GeoFault::NoCovering(primary)),
            Some(bbox) => covering_paths(bbox),
        },
    }
}

/// The name and the definition of the primary column in parsed metadata.
pub(crate) fn find_primary<'a>(geo: &'a serde_json::Value) -> (r: Result<
    (&'a str, &'a serde_json::Value),
    GeoError,
>)
    ensures
        match r {
            Ok((primary, column)) => primary_definition(json::json_of(*geo)) == Ok::<
                (Seq<char>, JsonView),
                GeoFault,
            >((primary@, json::json_of(*column))),
            Err(e) => primary_definition(json::json_of(*geo)) == Err::<
                (Seq<char>, JsonView),
                GeoFault,
            >(e@),
        },
{
    let primary = match json_get(geo, "primary_column") {
        Some(v) => match json_as_str(v) {
            Some(s) => s,
            None => {
                return Err(GeoError::NoPrimaryColumn);
            },
        },
        None => {
            return Err(GeoError::NoPrimaryColumn);
        },
    };
    match json_get(geo, "columns") {
        Some(columns) => match json_get(columns, primary) {
            Some(column) => Ok((primary, column)),
            None => Err(GeoError::NoColumnDefinition),
        },
        None => Err(GeoError::NoColumnDefinition),
    }
}

fn find_path(bbox: &serde_json::Value, side: Side) -> (r: Result<(String, String), GeoError>)
    ensures
        match r {
            Ok((column, field)) => path_of(json::json_of(*bbox), side) == Ok::<
                (Seq<char>, Seq<char>),
                GeoFault,
            >((column@, field@)),
            Err(e) => path_of(json::json_of(*bbox), side) == Err::<(Seq<char>, Seq<char>), GeoFault>(e@),
        },
{
    let items = match json_get(bbox, side.name()) {
        Some(v) => match json_as_array(v) {
            Some(items) => items,
            None => {
                return Err(GeoError::NoPath(side));
            },
        },
        None => {
            return Err(GeoError::NoPath(side));
        },
    };
    let parts = texts_among(items);
    proof {
        let seen = text::texts(parts@);
        assert(seen.len() == parts@.len());
        if parts@.len() == 2 {
            assert(seen[0] == parts@[0]@);
            assert(seen[1] == parts@[1]@);
        }
    }
    if parts.len() == 2 {
        Ok((parts[0].clone(), parts[1].clone()))
    } else {
        Err(GeoError::BadPath(side, show_values(items)))
    }
}

fn find_path_in(bbox: &serde_json::Value, side: Side, column: &String) -> (r: Result<
    String,
    GeoError,
>)
    ensures
        match r {
            Ok(field) => path_in(json::json_of(*bbox), side, column@) == Ok::<Seq<char>, GeoFault>(
                field@,
            ),
            Err(e) => path_in(json::json_of(*bbox), side, column@) == Err::<Seq<char>, GeoFault>(e@),
        },
{
    match find_path(bbox, side) {
        Ok((c, field)) => if same_text(c.as_str(), column.as_str()) {
            Ok(field)
        } else {
            Err(GeoError::SeveralColumns(column.clone(), c))
        },
        Err(e) => Err(e),
    }
}

/// The covering that parsed `geo` metadata declares.
pub fn covering_bbox_of(geo: &serde_json::Value) -> (r: Result<CoveringBbox, GeoError>)
    ensures
        match r {
            Ok(c) => covering_in(json::json_of(*geo)) == Ok::<CoveringView, GeoFault>(c@),
            Err(e) => covering_in(json::json_of(*geo)) == Err::<CoveringView, GeoFault>(e@),
        },
{
    let (primary, definition) = match find_primary(geo) {
        Ok(found) => found,
        Err(e) => {
            return Err(e);
        },
    };
    let bbox = match json_get(definition, "covering") {
        Some(covering) => match json_get(covering, "bbox") {
            Some(bbox) => bbox,
            None => {
                return Err(GeoError::NoCovering(primary.to_string()));
            },
        },
        None => {
            return Err(GeoError::NoCovering(primary.to_string()));
        },
    };
    let (column, xmin) = match find_path(bbox, Side::Xmin) {
        Ok(path) => path,
        Err(e) => {
            return Err(e);
        },
    };
    let ymin = match find_path_in(bbox, Side::Ymin, &column) {
        Ok(field) => field,
        Err(e) => {
            return Err(e);
        },
    };
    let xmax = match find_path_in(bbox, Side::Xmax, &column) {
        Ok(field) => field,
        Err(e) => {
            return Err(e);
        },
    };
    let ymax = match find_path_in(bbox, Side::Ymax, &column) {
        Ok(field) => field,
        Err(e) => {
            return Err(e);
        },
    };
    Ok(CoveringBbox { column, xmin, ymin, xmax, ymax })
}

/// What the text of `geo` metadata says of the covering.
pub open spec fn covering_in_text(text: Seq<char>) -> Result<CoveringView, GeoFault> {
    match json::json_text(text) {
        Ok(geo) => covering_in(geo),
        Err(cause) => Err(GeoFault::NotJson(cause)),
    }
}

/// Reads from `geo` metadata which columns hold the bounding boxes. A file
/// without a covering is an error: nothing could be skipped when reading it.
pub fn covering_bbox(geo_json: &str) -> (r: Result<CoveringBbox, GeoError>)
    ensures
        match r {
            Ok(c) => covering_in_text(geo_json@) == Ok::<CoveringView, GeoFault>(c@),
            Err(e) => covering_in_text(geo_json@) == Err::<CoveringView, GeoFault>(e@),
        },
{
    match json_parse(geo_json) {
        Ok(geo) => covering_bbox_of(&geo),
        Err(cause) => Err(GeoError::NotJson(cause)),
    }
}

// ---------------------------------------------------------------------------
// Writing
// ---------------------------------------------------------------------------

pub open spec fn path_view(column: Seq<char>, field: Seq<char>) -> JsonView {
    JsonView::Array(seq![JsonView::Text(column), JsonView::Text(field)])
}

/// The numbers of a bounding box as a JSON array.
pub open spec fn bbox_view(bbox: Seq<Real>) -> JsonView {
    JsonView::Array(Seq::new(bbox.len(), |i: int| JsonView::number(bbox[i])))
}

/// The `covering` member of a column definition.
pub open spec fn covering_view(covering: CoveringView) -> JsonView {
    JsonView::empty().with(
        "bbox"@,
        JsonView::empty().with("xmin"@, path_view(covering.column, covering.xmin)).with(
            "ymin"@,
            path_view(covering.column, covering.ymin),
        ).with("xmax"@, path_view(covering.column, covering.xmax)).with(
            "ymax"@,
            path_view(covering.column, covering.ymax),
        ),
    )
}

/// The metadata for one geometry column.
pub open spec fn geo_view(
    primary: Seq<char>,
    covering: CoveringView,
    geometry_types: Seq<Seq<char>>,
    bbox: Seq<Real>,
) -> JsonView {
    JsonView::empty().with("version"@, JsonView::Text("1.1.0"@)).with(
        "primary_column"@,
        JsonView::Text(primary),
    ).with(
        "columns"@,
        JsonView::empty().with(
            primary,
            JsonView::empty().with("encoding"@, JsonView::Text("WKB"@)).with(
                "geometry_types"@,
                json::text_array(geometry_types),
            ).with("bbox"@, bbox_view(bbox)).with("covering"@, covering_view(covering)),
        ),
    )
}

fn path_json(column: &String, field: &String) -> (v: serde_json::Value)
    ensures
        json::json_of(v) == path_view(column@, field@),
{
    let mut items: Vec<serde_json::Value> = Vec::new();
    items.push(json_string(column.as_str()));
    items.push(json_string(field.as_str()));
    assert(json::views(items@) =~= seq![JsonView::Text(column@), JsonView::Text(field@)]);
    json_array(items)
}

/// The four numbers of a bounding box as a JSON array.
pub(crate) fn bbox_json(bbox: &Bounds) -> (v: serde_json::Value)
    ensures
        json::json_of(v) == bbox_view(bbox.numbers()),
{
    let mut items: Vec<serde_json::Value> = Vec::new();
    items.push(json_real(bbox.xmin));
    items.push(json_real(bbox.ymin));
    items.push(json_real(bbox.xmax));
    items.push(json_real(bbox.ymax));
    assert(json::views(items@) =~= Seq::new(
        bbox.numbers().len(),
        |i: int| JsonView::number(bbox.numbers()[i]),
    ));
    json_array(items)
}

fn covering_json(covering: &CoveringBbox) -> (v: serde_json::Value)
    ensures
        json::json_of(v) == covering_view(covering@),
{
    let mut bbox = json_object();
    json_put(&mut bbox, "xmin", path_json(&covering.column, &covering.xmin));
    json_put(&mut bbox, "ymin", path_json(&covering.column, &covering.ymin));
    json_put(&mut bbox, "xmax", path_json(&covering.column, &covering.xmax));
    json_put(&mut bbox, "ymax", path_json(&covering.column, &covering.ymax));
    let mut v = json_object();
    json_put(&mut v, "bbox", bbox);
    v
}

/// Builds the `geo` metadata of GeoParquet 1.1 as a JSON text. Reading that
/// text gives the covering back.
pub fn geo_metadata_json(
    primary_column: &str,
    covering: &CoveringBbox,
    geometry_types: &Vec<String>,
    bbox: Bounds,
) -> (r: Result<String, serde_json::Error>)
    ensures
        match r {
            Ok(text) => {
                let geo = geo_view(
                    primary_column@,
                    covering@,
                    text::texts(geometry_types@),
                    bbox.numbers(),
                );
                &&& text@ == json::json_written(geo)
                &&& json::json_text(text@) is Ok
                &&& json::alike(geo, json::json_text(text@)->Ok_0, 127)
                &&& covering_in_text(text@) == Ok::<CoveringView, GeoFault>(covering@)
                &&& says(
                    json::json_text(text@)->Ok_0,
                    primary_column@,
                    text::texts(geometry_types@),
                )
            },
            Err(_) => false,
        },
{
    let mut column = json_object();
    json_put(&mut column, "encoding", json_string("WKB"));
    json_put(&mut column, "geometry_types", json_texts(geometry_types));
    json_put(&mut column, "bbox", bbox_json(&bbox));
    json_put(&mut column, "covering", covering_json(covering));
    let mut columns = json_object();
    json_put(&mut columns, primary_column, column);
    let mut geo = json_object();
    json_put(&mut geo, "version", json_string("1.1.0"));
    json_put(&mut geo, "primary_column", json_string(primary_column));
    json_put(&mut geo, "columns", columns);
    let written = json_write(&geo);
    proof {
        let types = text::texts(geometry_types@);
        lemma_geo_shallow(primary_column@, covering@, types, bbox.numbers());
        law_covering_reads_back(
            primary_column@,
            covering@,
            types,
            bbox.numbers(),
            json::json_text(written->Ok_0@)->Ok_0,
        );
    }
    written
}

/// What metadata says beside the covering: the version, and the geometry types
/// of a column in order.
pub open spec fn says(geo: JsonView, primary: Seq<char>, geometry_types: Seq<Seq<char>>) -> bool {
    &&& geo.member("version"@) == Some(JsonView::Text("1.1.0"@))
    &&& json::member_of(
        json::member_of(geo.member("columns"@), primary),
        "geometry_types"@,
    ) == Some(json::text_array(geometry_types))
}

pub proof fn lemma_member_names()
    ensures
        "version"@ != "primary_column"@,
        "version"@ != "columns"@,
        "primary_column"@ != "columns"@,
        "encoding"@ != "covering"@,
        "geometry_types"@ != "covering"@,
        "bbox"@ != "covering"@,
        "encoding"@ != "bbox"@,
        "encoding"@ != "geometry_types"@,
        "geometry_types"@ != "bbox"@,
        "xmin"@ != "ymin"@,
        "xmin"@ != "xmax"@,
        "xmin"@ != "ymax"@,
        "ymin"@ != "xmax"@,
        "ymin"@ != "ymax"@,
        "xmax"@ != "ymax"@,
{
    reveal_strlit("version");
    reveal_strlit("primary_column");
    reveal_strlit("columns");
    reveal_strlit("encoding");
    reveal_strlit("covering");
    reveal_strlit("geometry_types");
    reveal_strlit("bbox");
    reveal_strlit("xmin");
    reveal_strlit("ymin");
    reveal_strlit("xmax");
    reveal_strlit("ymax");
    assert("version"@.len() == 7 && "primary_column"@.len() == 14 && "columns"@.len() == 7);
    assert("version"@[0] == 'v' && "columns"@[0] == 'c');
    assert("encoding"@.len() == 8 && "covering"@.len() == 8);
    assert("geometry_types"@.len() == 14 && "bbox"@.len() == 4);
    assert("encoding"@[0] == 'e' && "covering"@[0] == 'c');
    assert("xmin"@[0] == 'x' && "ymin"@[0] == 'y' && "xmax"@[0] == 'x' && "ymax"@[0] == 'y');
    assert("xmin"@[2] == 'i' && "ymin"@[2] == 'i' && "xmax"@[2] == 'a' && "ymax"@[2] == 'a');
}

proof fn lemma_path_texts(column: Seq<char>, field: Seq<char>, items: Seq<JsonView>)
    requires
        items.len() == 2,
        items[0] == JsonView::Text(column),
        items[1] == JsonView::Text(field),
    ensures
        json::texts_in(items) == seq![column, field],
{
    reveal_with_fuel(json::texts_in, 3);
    assert(items.drop_last().last() == items[0]);
    assert(items.drop_last().drop_last() == Seq::<JsonView>::empty());
    assert(json::texts_in(items) =~= seq![column, field]);
}

/// The path that an object like `bbox` gives for a side.
proof fn lemma_path_alike(
    bbox: JsonView,
    read: JsonView,
    depth: nat,
    side: Side,
    column: Seq<char>,
    field: Seq<char>,
)
    requires
        depth > 3,
        json::alike(bbox, read, depth),
        bbox.member(side.spec_name()) == Some(path_view(column, field)),
    ensures
        path_of(read, side) == Ok::<(Seq<char>, Seq<char>), GeoFault>((column, field)),
{
    json::lemma_alike_member(bbox, read, depth, side.spec_name());
    let path = path_view(column, field);
    let seen = read.member(side.spec_name())->0;
    assert(json::alike(path, seen, (depth - 1) as nat));
    match seen {
        JsonView::Array(items) => {
            let own = path->Array_0;
            assert(json::alike(own[0], items[0], (depth - 2) as nat));
            assert(json::alike(own[1], items[1], (depth - 2) as nat));
            lemma_path_texts(column, field, items);
        },
        _ => {},
    }
}

/// Whatever reads like the metadata for a covering declares that covering, with
/// the version and the geometry types.
pub proof fn law_covering_reads_back(
    primary: Seq<char>,
    covering: CoveringView,
    geometry_types: Seq<Seq<char>>,
    bbox: Seq<Real>,
    read: JsonView,
)
    requires
        json::alike(geo_view(primary, covering, geometry_types, bbox), read, 127),
    ensures
        covering_in(read) == Ok::<CoveringView, GeoFault>(covering),
        says(read, primary, geometry_types),
{
    lemma_member_names();
    let geo = geo_view(primary, covering, geometry_types, bbox);
    json::lemma_alike_member(geo, read, 127, "primary_column"@);
    json::lemma_alike_member(geo, read, 127, "columns"@);
    let columns = geo.member("columns"@)->0;
    let read_columns = read.member("columns"@)->0;
    json::lemma_alike_member(columns, read_columns, 126, primary);
    let column = columns.member(primary)->0;
    let read_column = read_columns.member(primary)->0;
    json::lemma_alike_member(geo, read, 127, "version"@);
    json::lemma_alike_member(column, read_column, 125, "geometry_types"@);
    json::lemma_alike_texts(geometry_types, read_column.member("geometry_types"@)->0, 124);
    json::lemma_alike_member(column, read_column, 125, "covering"@);
    let cover = column.member("covering"@)->0;
    let read_cover = read_column.member("covering"@)->0;
    assert(cover == covering_view(covering));
    json::lemma_alike_member(cover, read_cover, 124, "bbox"@);
    let inner = cover.member("bbox"@)->0;
    let read_inner = read_cover.member("bbox"@)->0;
    lemma_path_alike(inner, read_inner, 123, Side::Xmin, covering.column, covering.xmin);
    lemma_path_alike(inner, read_inner, 123, Side::Ymin, covering.column, covering.ymin);
    lemma_path_alike(inner, read_inner, 123, Side::Xmax, covering.column, covering.xmax);
    lemma_path_alike(inner, read_inner, 123, Side::Ymax, covering.column, covering.ymax);
}

proof fn lemma_shallow_with(object: JsonView, key: Seq<char>, value: JsonView, depth: nat)
    requires
        depth > 0,
        object is Object,
        json::shallow(object, depth),
        json::shallow(value, (depth - 1) as nat),
    ensures
        json::shallow(object.with(key, value), depth),
{
    let m = object->Object_0.insert(key, value);
    assert forall|k: Seq<char>| m.contains_key(k) implies json::shallow(
        #[trigger] m[k],
        (depth - 1) as nat,
    ) by {
        if k != key {
            assert(object->Object_0.contains_key(k));
            assert(m[k] == object->Object_0[k]);
        }
    }
}

proof fn lemma_shallow_empty(depth: nat)
    requires
        depth > 0,
    ensures
        json::shallow(JsonView::empty(), depth),
{
}

proof fn lemma_shallow_path(column: Seq<char>, field: Seq<char>, depth: nat)
    requires
        depth > 1,
    ensures
        json::shallow(path_view(column, field), depth),
{
    let items = path_view(column, field)->Array_0;
    assert forall|i: int| 0 <= i < items.len() implies json::shallow(
        #[trigger] items[i],
        (depth - 1) as nat,
    ) by {}
}

proof fn lemma_geo_shallow(
    primary: Seq<char>,
    covering: CoveringView,
    geometry_types: Seq<Seq<char>>,
    bbox: Seq<Real>,
)
    ensures
        json::shallow(geo_view(primary, covering, geometry_types, bbox), 127),
{
    let o = JsonView::empty();
    lemma_shallow_path(covering.column, covering.xmin, 122);
    lemma_shallow_path(covering.column, covering.ymin, 122);
    lemma_shallow_path(covering.column, covering.xmax, 122);
    lemma_shallow_path(covering.column, covering.ymax, 122);
    lemma_shallow_empty(123);
    let p1 = path_view(covering.column, covering.xmin);
    let p2 = path_view(covering.column, covering.ymin);
    let p3 = path_view(covering.column, covering.xmax);
    let p4 = path_view(covering.column, covering.ymax);
    let b1 = o.with("xmin"@, p1);
    let b2 = b1.with("ymin"@, p2);
    let b3 = b2.with("xmax"@, p3);
    let b4 = b3.with("ymax"@, p4);
    lemma_shallow_with(o, "xmin"@, p1, 123);
    lemma_shallow_with(b1, "ymin"@, p2, 123);
    lemma_shallow_with(b2, "xmax"@, p3, 123);
    lemma_shallow_with(b3, "ymax"@, p4, 123);
    lemma_shallow_empty(124);
    lemma_shallow_with(o, "bbox"@, b4, 124);
    let types = json::text_array(geometry_types);
    assert(json::shallow(types, 124)) by {
        let items = types->Array_0;
        assert forall|i: int| 0 <= i < items.len() implies json::shallow(#[trigger] items[i], 123) by {}
    }
    let numbers = bbox_view(bbox);
    assert(json::shallow(numbers, 124)) by {
        let items = numbers->Array_0;
        assert forall|i: int| 0 <= i < items.len() implies json::shallow(#[trigger] items[i], 123) by {}
    }
    lemma_shallow_empty(125);
    let c1 = o.with("encoding"@, JsonView::Text("WKB"@));
    let c2 = c1.with("geometry_types"@, types);
    let c3 = c2.with("bbox"@, numbers);
    let c4 = c3.with("covering"@, covering_view(covering));
    lemma_shallow_with(o, "encoding"@, JsonView::Text("WKB"@), 125);
    lemma_shallow_with(c1, "geometry_types"@, types, 125);
    lemma_shallow_with(c2, "bbox"@, numbers, 125);
    lemma_shallow_with(c3, "covering"@, covering_view(covering), 125);
    lemma_shallow_empty(126);
    lemma_shallow_with(o, primary, c4, 126);
    lemma_shallow_empty(127);
    let g1 = o.with("version"@, JsonView::Text("1.1.0"@));
    let g2 = g1.with("primary_column"@, JsonView::Text(primary));
    lemma_shallow_with(o, "version"@, JsonView::Text("1.1.0"@), 127);
    lemma_shallow_with(g1, "primary_column"@, JsonView::Text(primary), 127);
    lemma_shallow_with(g2, "columns"@, o.with(primary, c4), 127);
}

// ---------------------------------------------------------------------------
// Geometry types
// ---------------------------------------------------------------------------

/// GeoParquet's spelling of a geometry type written in capitals.
pub open spec fn type_spelling(name: Seq<char>) -> Option<Seq<char>> {
    if name == "POINT"@ {
        Some("Point"@)
    } else if name == "LINESTRING"@ {
        Some("LineString"@)
    } else if name == "POLYGON"@ {
        Some("Polygon"@)
    } else if name == "MULTIPOINT"@ {
        Some("MultiPoint"@)
    } else if name == "MULTILINESTRING"@ {
        Some("MultiLineString"@)
    } else if name == "MULTIPOLYGON"@ {
        Some("MultiPolygon"@)
    } else if name == "GEOMETRYCOLLECTION"@ {
        Some("GeometryCollection"@)
    } else {
        None
    }
}

/// A geometry type that has no spelling in GeoParquet.
#[derive(Debug, PartialEq)]
pub struct UnknownGeometryType {
    pub name: String,
}

impl UnknownGeometryType {
    pub fn to_string(&self) -> (text: String)
        ensures
            text@ == "未知のジオメトリ種別: "@ + text::quoted(self.name@),
    {
        let mut text = "未知のジオメトリ種別: ".to_string();
        text.append(quote(self.name.as_str()).as_str());
        text
    }
}

/// Turns the name that DuckDB's `ST_GeometryType` gives into GeoParquet's
/// spelling. White space around it and its case do not matter.
pub fn geoparquet_geometry_type(duckdb_name: &str) -> (r: Result<
    &'static str,
    UnknownGeometryType,
>)
    ensures
        ({
            let name = text::upper(text::trimmed(duckdb_name@));
            match r {
                Ok(spelling) => type_spelling(name) == Some(spelling@),
                Err(e) => type_spelling(name) is None && e.name@ == name,
            }
        }),
{
    let inner = trim(duckdb_name);
    let name = to_upper(inner.as_str());
    if same_text(name.as_str(), "POINT") {
        Ok("Point")
    } else if same_text(name.as_str(), "LINESTRING") {
        Ok("LineString")
    } else if same_text(name.as_str(), "POLYGON") {
        Ok("Polygon")
    } else if same_text(name.as_str(), "MULTIPOINT") {
        Ok("MultiPoint")
    } else if same_text(name.as_str(), "MULTILINESTRING") {
        Ok("MultiLineString")
    } else if same_text(name.as_str(), "MULTIPOLYGON") {
        Ok("MultiPolygon")
    } else if same_text(name.as_str(), "GEOMETRYCOLLECTION") {
        Ok("GeometryCollection")
    } else {
        Err(UnknownGeometryType { name })
    }
}

// ---------------------------------------------------------------------------
// Columns
// ---------------------------------------------------------------------------

/// The values of a column, by type.
#[derive(Debug, PartialEq)]
pub enum ColumnData {
    /// Texts, none of them missing.
    Utf8(Vec<String>),
    Utf8Nullable(Vec<Option<String>>),
    F64Nullable(Vec<Option<Real>>),
    I32Nullable(Vec<Option<i32>>),
}

/// A column other than those of the geometry.
#[derive(Debug, PartialEq)]
pub struct Column {
    pub name: String,
    pub data: ColumnData,
}

/// The views of texts that may be missing.
pub open spec fn optional_texts(list: Seq<Option<String>>) -> Seq<Option<Seq<char>>> {
    Seq::new(
        list.len(),
        |i: int|
            match list[i] {
                Some(s) => Some(s@),
                None => None,
            },
    )
}

impl Column {
    /// The number of rows.
    pub open spec fn height(self) -> nat {
        match self.data {
            ColumnData::Utf8(values) => values@.len(),
            ColumnData::Utf8Nullable(values) => values@.len(),
            ColumnData::F64Nullable(values) => values@.len(),
            ColumnData::I32Nullable(values) => values@.len(),
        }
    }

    /// The text in row `i`, where there is one.
    pub open spec fn text_at(self, i: int) -> Option<Seq<char>> {
        match self.data {
            ColumnData::Utf8(values) => Some(values@[i]@),
            ColumnData::Utf8Nullable(values) => text::optional_view(values@[i]),
            _ => None,
        }
    }

    /// The number in row `i`, where there is one.
    pub open spec fn real_at(self, i: int) -> Option<Real> {
        match self.data {
            ColumnData::F64Nullable(values) => values@[i],
            _ => None,
        }
    }

    /// The integer in row `i`, where there is one.
    pub open spec fn integer_at(self, i: int) -> Option<i32> {
        match self.data {
            ColumnData::I32Nullable(values) => values@[i],
            _ => None,
        }
    }

    /// The column has that name and holds these texts, none of them missing.
    pub open spec fn holds_texts(self, name: Seq<char>, list: Seq<Seq<char>>) -> bool {
        self.name@ == name && match self.data {
            ColumnData::Utf8(values) => text::texts(values@) == list,
            _ => false,
        }
    }

    /// The column has that name and holds these texts, where they are there.
    pub open spec fn holds_optional_texts(
        self,
        name: Seq<char>,
        list: Seq<Option<Seq<char>>>,
    ) -> bool {
        self.name@ == name && match self.data {
            ColumnData::Utf8Nullable(values) => optional_texts(values@) == list,
            _ => false,
        }
    }

    /// The column has that name and holds these numbers, where they are there.
    pub open spec fn holds_reals(self, name: Seq<char>, list: Seq<Option<Real>>) -> bool {
        self.name@ == name && match self.data {
            ColumnData::F64Nullable(values) => values@ == list,
            _ => false,
        }
    }

    /// The column has that name and holds these integers, where they are there.
    pub open spec fn holds_integers(self, name: Seq<char>, list: Seq<Option<i32>>) -> bool {
        self.name@ == name && match self.data {
            ColumnData::I32Nullable(values) => values@ == list,
            _ => false,
        }
    }
}

/// A column of texts in which none is missing.
pub fn utf8_column(name: &str, values: Vec<String>) -> (c: Column)
    ensures
        c.holds_texts(name@, text::texts(values@)),
{
    Column { name: name.to_string(), data: ColumnData::Utf8(values) }
}

/// A column of texts that may be missing.
pub fn utf8_nullable_column(name: &str, values: Vec<Option<String>>) -> (c: Column)
    ensures
        c.holds_optional_texts(name@, optional_texts(values@)),
{
    Column { name: name.to_string(), data: ColumnData::Utf8Nullable(values) }
}

/// A column of numbers that may be missing.
pub fn f64_nullable_column(name: &str, values: Vec<Option<Real>>) -> (c: Column)
    ensures
        c.holds_reals(name@, values@),
{
    Column { name: name.to_string(), data: ColumnData::F64Nullable(values) }
}

/// A column of integers that may be missing.
pub fn i32_nullable_column(name: &str, values: Vec<Option<i32>>) -> (c: Column)
    ensures
        c.holds_integers(name@, values@),
{
    Column { name: name.to_string(), data: ColumnData::I32Nullable(values) }
}

// ---------------------------------------------------------------------------
// Geometry columns
// ---------------------------------------------------------------------------

#[verifier::external_type_specification]
#[verifier::external_body]
pub struct ExWkbError(wkb::error::WkbError);

/// What `wkb::writer::write_point` writes for a point, little-endian; `None`
/// where it reports an error. The same of the other three.
pub uninterp spec fn wkb_point(c: Coord) -> Option<Seq<u8>>;

/// What `wkb::writer::write_line_string` writes.
pub uninterp spec fn wkb_line(line: Seq<Coord>) -> Option<Seq<u8>>;

/// What `wkb::writer::write_polygon` writes.
pub uninterp spec fn wkb_polygon(p: PolygonView) -> Option<Seq<u8>>;

/// What `wkb::writer::write_multi_polygon` writes.
pub uninterp spec fn wkb_multi_polygon(m: Seq<PolygonView>) -> Option<Seq<u8>>;

/// `wkb::writer::write_point` on the `geo_types` point with the same
/// coordinates: a function of the point.
#[verifier::external_body]
fn write_wkb_point(c: &Coord) -> (r: Result<Vec<u8>, wkb::error::WkbError>)
    ensures
        match r {
            Ok(bytes) => wkb_point(*c) == Some(bytes@),
            Err(_) => wkb_point(*c) is None,
        },
{
    let at = [c.x, c.y].map(
        |r: Real| <<Float64Type as ArrowPrimitiveType>::Native>::from_bits(r.bits),
    );
    let mut bytes = Vec::new();
    wkb::writer::write_point(&mut bytes, &geo_types::Point::from(at), &Default::default())?;
    Ok(bytes)
}

/// `wkb::writer::write_line_string` on the `geo_types` line with the same
/// coordinates: a function of the line.
#[verifier::external_body]
fn write_wkb_line(line: &Vec<Coord>) -> (r: Result<Vec<u8>, wkb::error::WkbError>)
    ensures
        match r {
            Ok(bytes) => wkb_line(line@) == Some(bytes@),
            Err(_) => wkb_line(line@) is None,
        },
{
    let at = |c: &Coord| [c.x, c.y].map(
        |r: Real| <<Float64Type as ArrowPrimitiveType>::Native>::from_bits(r.bits),
    );
    let line: geo_types::LineString = line.iter().map(at).collect();
    let mut bytes = Vec::new();
    wkb::writer::write_line_string(&mut bytes, &line, &Default::default())?;
    Ok(bytes)
}

/// `wkb::writer::write_polygon` on the `geo_types` polygon with the same rings:
/// a function of the polygon.
#[verifier::external_body]
fn write_wkb_polygon(p: &Polygon) -> (r: Result<Vec<u8>, wkb::error::WkbError>)
    ensures
        match r {
            Ok(bytes) => wkb_polygon(p@) == Some(bytes@),
            Err(_) => wkb_polygon(p@) is None,
        },
{
    let at = |c: &Coord| [c.x, c.y].map(
        |r: Real| <<Float64Type as ArrowPrimitiveType>::Native>::from_bits(r.bits),
    );
    let line = |l: &Vec<Coord>| l.iter().map(at).collect::<geo_types::LineString>();
    let area = geo_types::Polygon::new(line(&p.exterior), p.interiors.iter().map(line).collect());
    let mut bytes = Vec::new();
    wkb::writer::write_polygon(&mut bytes, &area, &Default::default())?;
    Ok(bytes)
}

/// `wkb::writer::write_multi_polygon` on the `geo_types` polygons with the same
/// rings: a function of the polygons.
#[verifier::external_body]
fn write_wkb_multi_polygon(m: &Vec<Polygon>) -> (r: Result<Vec<u8>, wkb::error::WkbError>)
    ensures
        match r {
            Ok(bytes) => wkb_multi_polygon(geo::polygons_of(m@)) == Some(bytes@),
            Err(_) => wkb_multi_polygon(geo::polygons_of(m@)) is None,
        },
{
    let at = |c: &Coord| [c.x, c.y].map(
        |r: Real| <<Float64Type as ArrowPrimitiveType>::Native>::from_bits(r.bits),
    );
    let line = |l: &Vec<Coord>| l.iter().map(at).collect::<geo_types::LineString>();
    let area = |p: &Polygon| geo_types::Polygon::new(line(&p.exterior), p.interiors.iter().map(line).collect());
    let areas: geo_types::MultiPolygon = m.iter().map(area).collect();
    let mut bytes = Vec::new();
    wkb::writer::write_multi_polygon(&mut bytes, &areas, &Default::default())?;
    Ok(bytes)
}

/// How a shape is encoded; `None` where that fails.
pub open spec fn wkb_of(shape: ShapeView) -> Option<Seq<u8>> {
    match shape {
        ShapeView::Point(c) => wkb_point(c),
        ShapeView::Line(l) => wkb_line(l),
        ShapeView::Polygon(p) => wkb_polygon(p),
        ShapeView::MultiPolygon(m) => wkb_multi_polygon(m),
    }
}

fn wkb_write(shape: &Shape) -> (r: Result<Vec<u8>, wkb::error::WkbError>)
    ensures
        match r {
            Ok(bytes) => wkb_of(shape@) == Some(bytes@),
            Err(_) => wkb_of(shape@) is None,
        },
{
    match shape {
        Shape::Point(c) => write_wkb_point(c),
        Shape::Line(l) => write_wkb_line(l),
        Shape::Polygon(p) => write_wkb_polygon(p),
        Shape::MultiPolygon(m) => write_wkb_multi_polygon(m),
    }
}

/// The columns that a file has for its geometries: the encoded geometry, the
/// four fields of the `bbox` struct, and the bounds of the whole file.
#[derive(Debug, PartialEq)]
pub struct GeometryColumns {
    pub wkb: Vec<Vec<u8>>,
    pub xmin: Vec<Real>,
    pub ymin: Vec<Real>,
    pub xmax: Vec<Real>,
    pub ymax: Vec<Real>,
    pub file_bbox: Bounds,
}

/// The views of shapes.
pub open spec fn shape_views(shapes: Seq<Shape>) -> Seq<ShapeView> {
    Seq::new(shapes.len(), |i: int| shapes[i]@)
}

/// The bounds of shapes together.
pub open spec fn shapes_bounds(shapes: Seq<ShapeView>) -> Bounds
    decreases shapes.len(),
{
    if shapes.len() == 0 {
        Bounds::spec_nothing()
    } else {
        shapes_bounds(shapes.drop_last()).spec_union(geo::shape_bounds(shapes.last()))
    }
}

impl GeometryColumns {
    /// The columns hold one row per shape, in order.
    pub open spec fn describes(self, shapes: Seq<ShapeView>) -> bool {
        &&& self.wkb@.len() == shapes.len()
        &&& self.xmin@.len() == shapes.len()
        &&& self.ymin@.len() == shapes.len()
        &&& self.xmax@.len() == shapes.len()
        &&& self.ymax@.len() == shapes.len()
        &&& forall|i: int|
            0 <= i < shapes.len() ==> self.describes_row(i, #[trigger] shapes[i])
        &&& self.file_bbox == shapes_bounds(shapes)
    }

    /// Row `i` holds that shape and its bounds.
    pub open spec fn describes_row(self, i: int, shape: ShapeView) -> bool {
        &&& wkb_of(shape) == Some(self.wkb@[i]@)
        &&& self.xmin@[i] == geo::shape_bounds(shape).xmin
        &&& self.ymin@[i] == geo::shape_bounds(shape).ymin
        &&& self.xmax@[i] == geo::shape_bounds(shape).xmax
        &&& self.ymax@[i] == geo::shape_bounds(shape).ymax
    }
}

/// A shape that cannot be encoded stands among them.
pub open spec fn unencodable(shapes: Seq<ShapeView>) -> bool {
    exists|i: int| 0 <= i < shapes.len() && wkb_of(#[trigger] shapes[i]) is None
}

/// Encodes shapes and collects their bounds.
pub fn geometry_columns(shapes: &Vec<Shape>) -> (r: Result<GeometryColumns, wkb::error::WkbError>)
    ensures
        match r {
            Ok(c) => c.describes(shape_views(shapes@)),
            Err(_) => unencodable(shape_views(shapes@)),
        },
{
    let ghost all = shape_views(shapes@);
    let mut c = GeometryColumns {
        wkb: Vec::new(),
        xmin: Vec::new(),
        ymin: Vec::new(),
        xmax: Vec::new(),
        ymax: Vec::new(),
        file_bbox: Bounds::nothing(),
    };
    let mut i: usize = 0;
    while i < shapes.len()
        invariant
            i <= shapes@.len(),
            all == shape_views(shapes@),
            c.describes(all.take(i as int)),
        decreases shapes@.len() - i,
    {
        let ghost before = c;
        assert(all[i as int] == shapes@[i as int]@);
        let bytes = match wkb_write(&shapes[i]) {
            Ok(bytes) => bytes,
            Err(e) => {
                assert(wkb_of(all[i as int]) is None);
                return Err(e);
            },
        };
        let b = bounds_of_shape(&shapes[i]);
        c.wkb.push(bytes);
        c.xmin.push(b.xmin);
        c.ymin.push(b.ymin);
        c.xmax.push(b.xmax);
        c.ymax.push(b.ymax);
        c.file_bbox = c.file_bbox.union(&b);
        proof {
            let now = all.take(i + 1);
            assert(now.drop_last() == all.take(i as int));
            assert forall|j: int| 0 <= j < now.len() implies c.describes_row(
                j,
                #[trigger] now[j],
            ) by {
                if j < i {
                    assert(before.describes_row(j, all.take(i as int)[j]));
                    assert(now[j] == all.take(i as int)[j]);
                } else {
                    assert(now[j] == all[i as int]);
                }
            }
        }
        i = i + 1;
    }
    assert(all.take(i as int) == all);
    Ok(c)
}

// ---------------------------------------------------------------------------
// Files
// ---------------------------------------------------------------------------

/// Where a file's data comes from, as far as the file itself knows.
#[derive(Debug, PartialEq)]
pub struct Provenance {
    /// The place that this one file was made from.
    pub via: Option<String>,
    /// The date of the data, as its publisher names it.
    pub vintage: Option<String>,
}

/// Everything that goes into a GeoParquet file.
#[derive(Debug, PartialEq)]
pub struct Table {
    pub columns: Vec<Column>,
    /// The name of the geometry column; the bounds stand in `bbox`.
    pub primary_column: String,
    pub geometry: GeometryColumns,
    /// Keys and values of the file's metadata.
    pub metadata: Vec<(String, String)>,
}

/// The covering that files of this library declare.
pub open spec fn own_covering() -> CoveringView {
    CoveringView {
        column: "bbox"@,
        xmin: "xmin"@,
        ymin: "ymin"@,
        xmax: "xmax"@,
        ymax: "ymax"@,
    }
}

/// The views of metadata entries.
pub open spec fn entries(metadata: Seq<(String, String)>) -> Seq<(Seq<char>, Seq<char>)> {
    Seq::new(metadata.len(), |i: int| (metadata[i].0@, metadata[i].1@))
}

/// An entry where there is a value, none where there is not.
pub open spec fn optional_entry(key: Seq<char>, value: Option<String>) -> Seq<
    (Seq<char>, Seq<char>),
> {
    match value {
        Some(v) => seq![(key, v@)],
        None => Seq::empty(),
    }
}

/// Puts a file together: the geometry columns, and metadata with the `geo`
/// entry and what is known of the file's provenance.
pub fn table(
    columns: Vec<Column>,
    primary_column: &str,
    geometry: GeometryColumns,
    geometry_types: &Vec<String>,
    provenance: &Provenance,
) -> (r: Result<Table, serde_json::Error>)
    ensures
        match r {
            Ok(t) => {
                let geo = geo_view(
                    primary_column@,
                    own_covering(),
                    text::texts(geometry_types@),
                    geometry.file_bbox.numbers(),
                );
                &&& t.columns == columns
                &&& t.primary_column@ == primary_column@
                &&& t.geometry == geometry
                &&& entries(t.metadata@) == seq![("geo"@, json::json_written(geo))]
                    + optional_entry(VIA_KEY@, provenance.via) + optional_entry(
                    VINTAGE_KEY@,
                    provenance.vintage,
                )
                &&& covering_in_text(t.metadata@[0].1@) == Ok::<CoveringView, GeoFault>(
                    own_covering(),
                )
            },
            Err(_) => false,
        },
{
    let covering = CoveringBbox {
        column: "bbox".to_string(),
        xmin: "xmin".to_string(),
        ymin: "ymin".to_string(),
        xmax: "xmax".to_string(),
        ymax: "ymax".to_string(),
    };
    assert(covering@ =~= own_covering());
    let geo = match geo_metadata_json(primary_column, &covering, geometry_types, geometry.file_bbox) {
        Ok(text) => text,
        Err(e) => {
            return Err(e);
        },
    };
    let mut metadata: Vec<(String, String)> = Vec::new();
    metadata.push(("geo".to_string(), geo));
    let ghost first = entries(metadata@);
    assert(first =~= seq![("geo"@, geo@)]);
    match &provenance.via {
        Some(via) => {
            metadata.push((VIA_KEY.to_string(), via.clone()));
        },
        None => {},
    }
    let ghost second = entries(metadata@);
    assert(second =~= first + optional_entry(VIA_KEY@, provenance.via));
    match &provenance.vintage {
        Some(vintage) => {
            metadata.push((VINTAGE_KEY.to_string(), vintage.clone()));
        },
        None => {},
    }
    assert(entries(metadata@) =~= second + optional_entry(VINTAGE_KEY@, provenance.vintage));
    Ok(Table { columns, primary_column: primary_column.to_string(), geometry, metadata })
}

/// Why rows do not go into a file.
#[derive(Debug, Clone, Copy, PartialEq, Eq, Structural)]
pub enum TableError {
    /// A geometry cannot be encoded.
    Geometry,
    /// The metadata cannot be written.
    Metadata,
}

impl TableError {
    pub fn to_string(&self) -> (text: String)
        ensures
            text@ == (match *self {
                TableError::Geometry => "WKBの書き出しに失敗しました"@,
                TableError::Metadata => "メタデータの書き出しに失敗しました"@,
            }),
    {
        match self {
            TableError::Geometry => "WKBの書き出しに失敗しました".to_string(),
            TableError::Metadata => "メタデータの書き出しに失敗しました".to_string(),
        }
    }
}

impl Table {
    /// The file holds those shapes, all of one type, and says where they come from.
    pub open spec fn is_of(
        self,
        shapes: Seq<ShapeView>,
        geometry_type: Seq<char>,
        provenance: Provenance,
    ) -> bool {
        &&& self.primary_column@ == "geometry"@
        &&& self.geometry.describes(shapes)
        &&& covering_in_text(self.metadata@[0].1@) == Ok::<CoveringView, GeoFault>(own_covering())
        &&& entries(self.metadata@) == seq![
            (
                "geo"@,
                json::json_written(
                    geo_view(
                        "geometry"@,
                        own_covering(),
                        seq![geometry_type],
                        self.geometry.file_bbox.numbers(),
                    ),
                ),
            ),
        ] + optional_entry(VIA_KEY@, provenance.via) + optional_entry(
            VINTAGE_KEY@,
            provenance.vintage,
        )
    }
}

/// Puts a file of shapes of one type together.
pub fn table_of_shapes(
    columns: Vec<Column>,
    shapes: &Vec<Shape>,
    geometry_type: &str,
    provenance: &Provenance,
) -> (r: Result<Table, TableError>)
    ensures
        match r {
            Ok(t) => t.columns == columns && t.is_of(
                shape_views(shapes@),
                geometry_type@,
                *provenance,
            ),
            Err(e) => e == TableError::Geometry && unencodable(shape_views(shapes@)),
        },
{
    let geometry = match geometry_columns(shapes) {
        Ok(geometry) => geometry,
        Err(_) => {
            return Err(TableError::Geometry);
        },
    };
    let mut types: Vec<String> = Vec::new();
    types.push(geometry_type.to_string());
    assert(text::texts(types@) =~= seq![geometry_type@]);
    match table(columns, "geometry", geometry, &types, provenance) {
        Ok(t) => Ok(t),
        Err(_) => Err(TableError::Metadata),
    }
}

/// A column that holds a list has its name, as many rows as the list is long,
/// and in each row what stands there in the list.
pub proof fn law_columns_hold_their_list(
    c: Column,
    name: Seq<char>,
    texts: Seq<Seq<char>>,
    optional: Seq<Option<Seq<char>>>,
    reals: Seq<Option<Real>>,
    integers: Seq<Option<i32>>,
)
    ensures
        c.holds_texts(name, texts) <==> c.data is Utf8 && c.name@ == name && c.height()
            == texts.len() && forall|i: int|
            #![trigger c.text_at(i)]
            0 <= i < texts.len() ==> c.text_at(i) == Some(texts[i]),
        c.holds_optional_texts(name, optional) <==> c.data is Utf8Nullable && c.name@ == name
            && c.height() == optional.len() && forall|i: int|
            #![trigger c.text_at(i)]
            0 <= i < optional.len() ==> c.text_at(i) == optional[i],
        c.holds_reals(name, reals) <==> c.data is F64Nullable && c.name@ == name && c.height()
            == reals.len() && forall|i: int|
            #![trigger c.real_at(i)]
            0 <= i < reals.len() ==> c.real_at(i) == reals[i],
        c.holds_integers(name, integers) <==> c.data is I32Nullable && c.name@ == name
            && c.height() == integers.len() && forall|i: int|
            #![trigger c.integer_at(i)]
            0 <= i < integers.len() ==> c.integer_at(i) == integers[i],
{
    match c.data {
        ColumnData::Utf8(values) => {
            if c.height() == texts.len() && (forall|i: int|
                #![trigger c.text_at(i)]
                0 <= i < texts.len() ==> c.text_at(i) == Some(texts[i])) {
                assert forall|i: int| 0 <= i < texts.len() implies #[trigger] text::texts(
                    values@,
                )[i] == texts[i] by {
                    assert(c.text_at(i) == Some(texts[i]));
                }
                assert(text::texts(values@) =~= texts);
            }
            if c.holds_texts(name, texts) {
                assert forall|i: int| 0 <= i < texts.len() implies #[trigger] c.text_at(i) == Some(
                    texts[i],
                ) by {
                    assert(text::texts(values@)[i] == texts[i]);
                }
            }
        },
        ColumnData::Utf8Nullable(values) => {
            if c.height() == optional.len() && (forall|i: int|
                #![trigger c.text_at(i)]
                0 <= i < optional.len() ==> c.text_at(i) == optional[i]) {
                assert forall|i: int| 0 <= i < optional.len() implies #[trigger] optional_texts(
                    values@,
                )[i] == optional[i] by {
                    assert(c.text_at(i) == optional[i]);
                }
                assert(optional_texts(values@) =~= optional);
            }
            if c.holds_optional_texts(name, optional) {
                assert forall|i: int| 0 <= i < optional.len() implies #[trigger] c.text_at(i)
                    == optional[i] by {
                    assert(optional_texts(values@)[i] == optional[i]);
                }
            }
        },
        ColumnData::F64Nullable(values) => {
            if c.height() == reals.len() && (forall|i: int|
                #![trigger c.real_at(i)]
                0 <= i < reals.len() ==> c.real_at(i) == reals[i]) {
                assert forall|i: int| 0 <= i < reals.len() implies #[trigger] values@[i]
                    == reals[i] by {
                    assert(c.real_at(i) == reals[i]);
                }
                assert(values@ =~= reals);
            }
        },
        ColumnData::I32Nullable(values) => {
            if c.height() == integers.len() && (forall|i: int|
                #![trigger c.integer_at(i)]
                0 <= i < integers.len() ==> c.integer_at(i) == integers[i]) {
                assert forall|i: int| 0 <= i < integers.len() implies #[trigger] values@[i]
                    == integers[i] by {
                    assert(c.integer_at(i) == integers[i]);
                }
                assert(values@ =~= integers);
            }
        },
    }
}

/// A point is a vertex of one of several shapes.
pub open spec fn on_shapes(shapes: Seq<ShapeView>, c: Coord) -> bool {
    exists|i: int| 0 <= i < shapes.len() && geo::on_shape(#[trigger] shapes[i], c)
}

proof fn lemma_shapes_fit(shapes: Seq<ShapeView>)
    requires
        geo::finite_points(|c: Coord| on_shapes(shapes, c)),
    ensures
        geo::fits(shapes_bounds(shapes), |c: Coord| on_shapes(shapes, c)),
    decreases shapes.len(),
{
    let all = |c: Coord| on_shapes(shapes, c);
    if shapes.len() > 0 {
        let rest = shapes.drop_last();
        let last = shapes.last();
        let some = |c: Coord| on_shapes(rest, c);
        let one = |c: Coord| geo::on_shape(last, c);
        assert forall|c: Coord| #[trigger] some(c) implies all(c) by {
            let i = choose|i: int| 0 <= i < rest.len() && geo::on_shape(#[trigger] rest[i], c);
            assert(geo::on_shape(shapes[i], c));
        }
        assert forall|c: Coord| #[trigger] one(c) implies all(c) by {
            assert(geo::on_shape(shapes[shapes.len() - 1], c));
        }
        assert forall|c: Coord| #[trigger] all(c) implies some(c) || one(c) by {
            let i = choose|i: int| 0 <= i < shapes.len() && geo::on_shape(#[trigger] shapes[i], c);
            if i < rest.len() {
                assert(geo::on_shape(rest[i], c));
            }
        }
        lemma_shapes_fit(rest);
        geo::lemma_shape_fits(last);
        geo::lemma_union_fits(
            shapes_bounds(rest),
            some,
            geo::shape_bounds(last),
            one,
            all,
        );
    }
}

/// The bounds of a file hold every vertex of every row, and each side is
/// reached by one of them, where all are finite.
pub proof fn law_file_bounds_are_tight(shapes: Seq<ShapeView>, vertex: Coord)
    requires
        geo::finite_points(|c: Coord| on_shapes(shapes, c)),
        on_shapes(shapes, vertex),
    ensures
        geo::tight(shapes_bounds(shapes), |c: Coord| on_shapes(shapes, c)),
{
    let all = |c: Coord| on_shapes(shapes, c);
    lemma_shapes_fit(shapes);
    assert(all(vertex));
    geo::lemma_fit_is_tight(shapes_bounds(shapes), all, vertex);
}

/// A file has one row for each shape, in order. The bounds in a row are those
/// of its own shape and the bounds of the file those of all of them: they hold
/// every vertex and each side is reached by one.
pub proof fn law_rows_carry_their_bounds(
    columns: GeometryColumns,
    shapes: Seq<ShapeView>,
    i: int,
    vertex: Coord,
)
    requires
        columns.describes(shapes),
        geo::finite_points(|c: Coord| on_shapes(shapes, c)),
        0 <= i < shapes.len(),
        geo::on_shape(shapes[i], vertex),
    ensures
        columns.wkb@.len() == shapes.len(),
        columns.xmin@.len() == shapes.len(),
        columns.ymin@.len() == shapes.len(),
        columns.xmax@.len() == shapes.len(),
        columns.ymax@.len() == shapes.len(),
        geo::tight(
            (Bounds {
                xmin: columns.xmin@[i],
                ymin: columns.ymin@[i],
                xmax: columns.xmax@[i],
                ymax: columns.ymax@[i],
            }),
            |c: Coord| geo::on_shape(shapes[i], c),
        ),
        geo::tight(columns.file_bbox, |c: Coord| on_shapes(shapes, c)),
        match shapes[i] {
            ShapeView::Point(c) => wkb_point(c),
            ShapeView::Line(l) => wkb_line(l),
            ShapeView::Polygon(p) => wkb_polygon(p),
            ShapeView::MultiPolygon(m) => wkb_multi_polygon(m),
        } == Some(columns.wkb@[i]@),
{
    let all = |c: Coord| on_shapes(shapes, c);
    let own = |c: Coord| geo::on_shape(shapes[i], c);
    assert(columns.describes_row(i, shapes[i]));
    assert forall|c: Coord| #[trigger] own(c) implies all(c) by {
        assert(geo::on_shape(shapes[i], c));
    }
    geo::law_bounds_are_tight(shapes[i], vertex);
    assert(on_shapes(shapes, vertex));
    law_file_bounds_are_tight(shapes, vertex);
}

/// The metadata names the version, the primary column and how it is encoded,
/// lists the geometry types in order, and gives the bounds as west, south,
/// east, north. The covering leads from each side to its own field.
pub proof fn law_metadata_describes_the_column(
    primary: Seq<char>,
    covering: CoveringView,
    geometry_types: Seq<Seq<char>>,
    bounds: Bounds,
)
    ensures
        ({
            let geo = geo_view(primary, covering, geometry_types, bounds.numbers());
            let column = json::member_of(geo.member("columns"@), primary);
            let sides = json::member_of(json::member_of(column, "covering"@), "bbox"@);
            let extent = json::member_of(column, "bbox"@);
            let types = json::member_of(column, "geometry_types"@);
            &&& geo.member("version"@) == Some(JsonView::Text("1.1.0"@))
            &&& geo.member("primary_column"@) == Some(JsonView::Text(primary))
            &&& json::member_of(column, "encoding"@) == Some(JsonView::Text("WKB"@))
            &&& types is Some && types->0 is Array
            &&& types->0->Array_0.len() == geometry_types.len()
            &&& forall|i: int|
                #![trigger types->0->Array_0[i]]
                0 <= i < geometry_types.len() ==> types->0->Array_0[i] == JsonView::Text(
                    geometry_types[i],
                )
            &&& extent is Some && extent->0 is Array && extent->0->Array_0.len() == 4
            &&& bounds.xmin.finite() ==> extent->0->Array_0[0] == JsonView::Real(bounds.xmin)
            &&& bounds.ymin.finite() ==> extent->0->Array_0[1] == JsonView::Real(bounds.ymin)
            &&& bounds.xmax.finite() ==> extent->0->Array_0[2] == JsonView::Real(bounds.xmax)
            &&& bounds.ymax.finite() ==> extent->0->Array_0[3] == JsonView::Real(bounds.ymax)
            &&& leads_to(sides, "xmin"@, covering.column, covering.xmin)
            &&& leads_to(sides, "ymin"@, covering.column, covering.ymin)
            &&& leads_to(sides, "xmax"@, covering.column, covering.xmax)
            &&& leads_to(sides, "ymax"@, covering.column, covering.ymax)
        }),
{
    lemma_member_names();
}

/// A member of an object is a path of two parts.
pub open spec fn leads_to(
    sides: Option<JsonView>,
    side: Seq<char>,
    column: Seq<char>,
    field: Seq<char>,
) -> bool {
    let path = json::member_of(sides, side);
    &&& path is Some && path->0 is Array && path->0->Array_0.len() == 2
    &&& path->0->Array_0[0] == JsonView::Text(column)
    &&& path->0->Array_0[1] == JsonView::Text(field)
}

/// The spelling of a geometry type is its name in words that each begin with a
/// capital: it has the letters of the name, and the types of simple features
/// all have one.
pub proof fn law_types_keep_their_letters(name: Seq<char>)
    ensures
        type_spelling(name) is Some ==> text::upper(type_spelling(name)->0) == name,
        type_spelling(name) is Some <==> name == "POINT"@ || name == "LINESTRING"@ || name
            == "POLYGON"@ || name == "MULTIPOINT"@ || name == "MULTILINESTRING"@ || name
            == "MULTIPOLYGON"@ || name == "GEOMETRYCOLLECTION"@,
        type_spelling(name) is Some ==> forall|i: int|
            #![trigger type_spelling(name)->0[i]]
            0 <= i < name.len() ==> (('A' <= type_spelling(name)->0[i] <= 'Z') <==> i == 0 || (i == 4
                && name[0] == 'L') || (i == 5 && name[0] == 'M') || (i == 9 && name[0] == 'M'
                && name[5] == 'L') || (i == 8 && name[0] == 'G')),
{
    reveal_strlit("POINT");
    reveal_strlit("LINESTRING");
    reveal_strlit("POLYGON");
    reveal_strlit("MULTIPOINT");
    reveal_strlit("MULTILINESTRING");
    reveal_strlit("MULTIPOLYGON");
    reveal_strlit("GEOMETRYCOLLECTION");
    reveal_strlit("Point");
    reveal_strlit("LineString");
    reveal_strlit("Polygon");
    reveal_strlit("MultiPoint");
    reveal_strlit("MultiLineString");
    reveal_strlit("MultiPolygon");
    reveal_strlit("GeometryCollection");
    if type_spelling(name) is Some {
        assert(text::upper(type_spelling(name)->0) =~= name);
    }
}

/// What a column of texts says in its rows.
pub proof fn lemma_text_column(c: Column, name: Seq<char>, list: Seq<Seq<char>>)
    requires
        c.holds_texts(name, list),
    ensures
        c.name@ == name,
        c.data is Utf8,
        c.height() == list.len(),
        forall|i: int|
            #![trigger c.text_at(i)]
            0 <= i < list.len() ==> c.text_at(i) == Some(list[i]),
{
    law_columns_hold_their_list(c, name, list, Seq::empty(), Seq::empty(), Seq::empty());
}

/// What a column of texts that may be missing says in its rows.
pub proof fn lemma_optional_column(c: Column, name: Seq<char>, list: Seq<Option<Seq<char>>>)
    requires
        c.holds_optional_texts(name, list),
    ensures
        c.name@ == name,
        c.data is Utf8Nullable,
        c.height() == list.len(),
        forall|i: int|
            #![trigger c.text_at(i)]
            0 <= i < list.len() ==> c.text_at(i) == list[i],
{
    law_columns_hold_their_list(c, name, Seq::empty(), list, Seq::empty(), Seq::empty());
}

/// A file says in its metadata what its geometries are, under `geo`, and where
/// they come from and of what date they are, under `duck:via` and
/// `duck:vintage`, where that is known. Its covering leads to the fields of the
/// column `bbox`.
pub proof fn law_files_say_where_they_come_from(
    t: Table,
    shapes: Seq<ShapeView>,
    geometry_type: Seq<char>,
    provenance: Provenance,
)
    requires
        t.is_of(shapes, geometry_type, provenance),
    ensures
        t.primary_column@ == "geometry"@,
        t.geometry.describes(shapes),
        t.metadata@.len() == 1 + (if provenance.via is Some {
            1int
        } else {
            0
        }) + (if provenance.vintage is Some {
            1int
        } else {
            0
        }),
        t.metadata@[0].0@ == "geo"@,
        t.metadata@[0].1@ == json::json_written(
            geo_view(
                "geometry"@,
                (CoveringView {
                    column: "bbox"@,
                    xmin: "xmin"@,
                    ymin: "ymin"@,
                    xmax: "xmax"@,
                    ymax: "ymax"@,
                }),
                seq![geometry_type],
                shapes_bounds(shapes).numbers(),
            ),
        ),
        provenance.via is Some ==> t.metadata@[1].0@ == "duck:via"@ && t.metadata@[1].1@
            == provenance.via->0@,
        provenance.vintage is Some ==> t.metadata@.last().0@ == "duck:vintage"@
            && t.metadata@.last().1@ == provenance.vintage->0@,
{
    let all = entries(t.metadata@);
    assert(all.len() == t.metadata@.len());
    assert(all[0] == (t.metadata@[0].0@, t.metadata@[0].1@));
    if provenance.via is Some {
        assert(all[1] == (t.metadata@[1].0@, t.metadata@[1].1@));
    }
    if provenance.vintage is Some {
        assert(all[all.len() - 1] == (t.metadata@.last().0@, t.metadata@.last().1@));
    }
}

/// A covering is refused for the first thing that is wrong with it: the primary
/// column, its definition, that it has no covering, a side that has no path or
/// a path that has not two parts, or sides in more than one column.
pub proof fn law_coverings_are_refused(geo: JsonView, primary: Seq<char>, column: JsonView)
    ensures
        geo.member("primary_column"@) is None ==> covering_in(geo) == Err::<CoveringView, GeoFault>(
            GeoFault::NoPrimaryColumn,
        ),
        geo.member("primary_column"@) == Some(JsonView::Text(primary)) && json::member_of(
            geo.member("columns"@),
            primary,
        ) is None ==> covering_in(geo) == Err::<CoveringView, GeoFault>(
            GeoFault::NoColumnDefinition,
        ),
        geo.member("primary_column"@) == Some(JsonView::Text(primary)) && json::member_of(
            geo.member("columns"@),
            primary,
        ) == Some(column) && json::member_of(column.member("covering"@), "bbox"@) is None
            ==> covering_in(geo) == Err::<CoveringView, GeoFault>(GeoFault::NoCovering(primary)),
{
}

/// A side without a path is named, and a path leads to its column and its field
/// in this order.
pub proof fn law_sides_have_paths_of_two_parts(
    bbox: JsonView,
    side: Side,
    column: Seq<char>,
    field: Seq<char>,
)
    ensures
        bbox.member(side.spec_name()) is None ==> path_of(bbox, side) == Err::<
            (Seq<char>, Seq<char>),
            GeoFault,
        >(GeoFault::NoPath(side)),
        bbox.member(side.spec_name()) == Some(
            JsonView::Array(seq![JsonView::Text(column), JsonView::Text(field)]),
        ) ==> path_of(bbox, side) == Ok::<(Seq<char>, Seq<char>), GeoFault>((column, field)),
        side is Xmin ==> side.spec_name() == "xmin"@,
        side is Ymin ==> side.spec_name() == "ymin"@,
        side is Xmax ==> side.spec_name() == "xmax"@,
        side is Ymax ==> side.spec_name() == "ymax"@,
{
    let first = seq![JsonView::Text(column)];
    let second = seq![JsonView::Text(field)];
    json::law_texts_are_found_in_order(Seq::empty(), first, Seq::empty());
    json::law_texts_are_found_in_order(first, second, Seq::empty());
    assert(first + second =~= seq![JsonView::Text(column), JsonView::Text(field)]);
}

} // verus!
