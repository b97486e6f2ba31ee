//! Railways of the national land numerical information (N02): lines and
//! stations. Stations are lines too, along their platforms.
use crate::archive;
use crate::archive::{read_utf8_by, NameRule, ZipTextError, ZipTextFault};
use crate::features;
use crate::features::{
    extract_epsg, feature_count, feature_geometry, feature_text, line_coords, read_collection,
    CollectionError, CollectionFault, CollectionView, FeatureView, RawGeometry, RawView,
};
use crate::geo;
use crate::geo::{bounds_of_line, copy_line, Bounds, Coord, Shape, ShapeView};
use crate::geoparquet;
use crate::geoparquet::{
    table_of_shapes, utf8_column, utf8_nullable_column, Column, Provenance, Table, TableError,
};
use crate::metadata;
use crate::metadata::{VintageError, VintageFault};
use crate::text;
use crate::text::{copy_optional, push_decimal, quote, same_text};
use crate::transform;
use crate::transform::{transform_line, TransformError};
use vstd::prelude::*;

pub use crate::metadata::extract_vintage;

verus! {

// ---------------------------------------------------------------------------
// Code lists
// ---------------------------------------------------------------------------

/// Codes and the names that they stand for.
pub open spec fn list_view(list: Seq<(&'static str, &'static str)>) -> Seq<(Seq<char>, Seq<char>)> {
    Seq::new(list.len(), |i: int| (list[i].0@, list[i].1@))
}

/// Railway classes: 11 to 17 under the railway business act, 21 to 25 under
/// the tramway act.
pub open spec fn railway_class_list() -> Seq<(Seq<char>, Seq<char>)> {
    seq![
        ("11"@, "普通鉄道JR"@),
        ("12"@, "普通鉄道"@),
        ("13"@, "鋼索鉄道"@),
        ("14"@, "懸垂式鉄道"@),
        ("15"@, "跨座式鉄道"@),
        ("16"@, "案内軌条式鉄道"@),
        ("17"@, "無軌条鉄道"@),
        ("21"@, "軌道"@),
        ("22"@, "懸垂式モノレール"@),
        ("23"@, "跨座式モノレール"@),
        ("24"@, "案内軌条式"@),
        ("25"@, "浮上式"@),
    ]
}

pub fn railway_classes() -> (list: Vec<(&'static str, &'static str)>)
    ensures
        list_view(list@) == railway_class_list(),
{
    let mut list: Vec<(&'static str, &'static str)> = Vec::new();
    list.push(("11", "普通鉄道JR"));
    list.push(("12", "普通鉄道"));
    list.push(("13", "鋼索鉄道"));
    list.push(("14", "懸垂式鉄道"));
    list.push(("15", "跨座式鉄道"));
    list.push(("16", "案内軌条式鉄道"));
    list.push(("17", "無軌条鉄道"));
    list.push(("21", "軌道"));
    list.push(("22", "懸垂式モノレール"));
    list.push(("23", "跨座式モノレール"));
    list.push(("24", "案内軌条式"));
    list.push(("25", "浮上式"));
    assert(list_view(list@) =~= railway_class_list());
    list
}

/// Types of railway operators.
pub open spec fn institution_type_list() -> Seq<(Seq<char>, Seq<char>)> {
    seq![
        ("1"@, "JRの新幹線"@),
        ("2"@, "JR在来線"@),
        ("3"@, "公営鉄道"@),
        ("4"@, "民営鉄道"@),
        ("5"@, "第三セクター"@),
    ]
}

pub fn institution_types() -> (list: Vec<(&'static str, &'static str)>)
    ensures
        list_view(list@) == institution_type_list(),
{
    let mut list: Vec<(&'static str, &'static str)> = Vec::new();
    list.push(("1", "JRの新幹線"));
    list.push(("2", "JR在来線"));
    list.push(("3", "公営鉄道"));
    list.push(("4", "民営鉄道"));
    list.push(("5", "第三セクター"));
    assert(list_view(list@) =~= institution_type_list());
    list
}

/// The name of a code in a list.
pub open spec fn name_in(list: Seq<(Seq<char>, Seq<char>)>, code: Seq<char>) -> Option<Seq<char>>
    decreases list.len(),
{
    if list.len() == 0 {
        None
    } else if list[0].0 == code {
        Some(list[0].1)
    } else {
        name_in(list.drop_first(), code)
    }
}

/// Finds the name of a code. An unknown code has none: it is never passed over.
fn resolve(list: &Vec<(&'static str, &'static str)>, code: &str) -> (name: Option<String>)
    ensures
        match name {
            Some(n) => name_in(list_view(list@), code@) == Some(n@),
            None => name_in(list_view(list@), code@) is None,
        },
{
    let ghost all = list_view(list@);
    let mut i: usize = 0;
    assert(all.skip(0) == all);
    while i < list.len()
        invariant
            i <= list@.len(),
            all == list_view(list@),
            name_in(all, code@) == name_in(all.skip(i as int), code@),
        decreases list@.len() - i,
    {
        assert(all.skip(i as int)[0] == all[i as int]);
        assert(all.skip(i as int).drop_first() == all.skip(i + 1));
        if same_text(list[i].0, code) {
            return Some(list[i].1.to_string());
        }
        i = i + 1;
    }
    None
}

// ---------------------------------------------------------------------------
// Rows
// ---------------------------------------------------------------------------

/// A railway section or station, with codes and the names that they stand for.
#[derive(Debug, PartialEq)]
pub struct Row {
    pub railway_class_code: String,
    pub railway_class: String,
    pub institution_type_code: String,
    pub institution_type: String,
    pub line_name: String,
    pub operator: String,
    /// Only stations have one.
    pub station_name: Option<String>,
    pub station_code: Option<String>,
    /// Shared by the stations of one name on several lines.
    pub station_group_code: Option<String>,
    pub geometry: Vec<Coord>,
}

/// The view of a [`Row`].
#[verifier::ext_equal]
pub struct RowView {
    pub railway_class_code: Seq<char>,
    pub railway_class: Seq<char>,
    pub institution_type_code: Seq<char>,
    pub institution_type: Seq<char>,
    pub line_name: Seq<char>,
    pub operator: Seq<char>,
    pub station_name: Option<Seq<char>>,
    pub station_code: Option<Seq<char>>,
    pub station_group_code: Option<Seq<char>>,
    pub geometry: Seq<Coord>,
}

impl View for Row {
    type V = RowView;

    open spec fn view(&self) -> RowView {
        RowView {
            railway_class_code: self.railway_class_code@,
            railway_class: self.railway_class@,
            institution_type_code: self.institution_type_code@,
            institution_type: self.institution_type@,
            line_name: self.line_name@,
            operator: self.operator@,
            station_name: text::optional_view(self.station_name),
            station_code: text::optional_view(self.station_code),
            station_group_code: text::optional_view(self.station_group_code),
            geometry: self.geometry@,
        }
    }
}

pub open spec fn rows_view(rows: Seq<Row>) -> Seq<RowView> {
    Seq::new(rows.len(), |i: int| rows[i]@)
}

/// A property that every feature has.
#[derive(Debug, Clone, Copy, PartialEq, Eq, Structural)]
pub enum Property {
    RailwayClass,
    InstitutionType,
    LineName,
    Operator,
}

impl Property {
    pub open spec fn key(self) -> Seq<char> {
        match self {
            Property::RailwayClass => "N02_001"@,
            Property::InstitutionType => "N02_002"@,
            Property::LineName => "N02_003"@,
            Property::Operator => "N02_004"@,
        }
    }

    pub fn name(&self) -> (key: &'static str)
        ensures
            key@ == self.key(),
    {
        match self {
            Property::RailwayClass => "N02_001",
            Property::InstitutionType => "N02_002",
            Property::LineName => "N02_003",
            Property::Operator => "N02_004",
        }
    }

    pub open spec fn spec_meaning(self) -> Seq<char> {
        match self {
            Property::RailwayClass => "railway class"@,
            Property::InstitutionType => "institution type"@,
            Property::LineName => "line name"@,
            Property::Operator => "operator"@,
        }
    }

    pub fn meaning(&self) -> (meaning: &'static str)
        ensures
            meaning@ == self.spec_meaning(),
    {
        match self {
            Property::RailwayClass => "railway class",
            Property::InstitutionType => "institution type",
            Property::LineName => "line name",
            Property::Operator => "operator",
        }
    }
}

/// Why the data could not be read.
#[derive(Debug, PartialEq)]
pub enum N02Error {
    Collection(CollectionError),
    MissingGeometry,
    /// A position has fewer than two coordinates.
    ShortPosition,
    UnexpectedGeometry,
    Missing(Property),
    UnknownRailwayClass(String),
    UnknownInstitutionType(String),
    /// The row of that number has no station name.
    NoStationName(usize),
}

/// The view of an [`N02Error`].
pub enum N02Fault {
    Collection(CollectionFault),
    MissingGeometry,
    ShortPosition,
    UnexpectedGeometry,
    Missing(Property),
    UnknownRailwayClass(Seq<char>),
    UnknownInstitutionType(Seq<char>),
    NoStationName(int),
}

impl View for N02Error {
    type V = N02Fault;

    open spec fn view(&self) -> N02Fault {
        match self {
            N02Error::Collection(e) => N02Fault::Collection(e@),
            N02Error::MissingGeometry => N02Fault::MissingGeometry,
            N02Error::ShortPosition => N02Fault::ShortPosition,
            N02Error::UnexpectedGeometry => N02Fault::UnexpectedGeometry,
            N02Error::Missing(p) => N02Fault::Missing(*p),
            N02Error::UnknownRailwayClass(code) => N02Fault::UnknownRailwayClass(code@),
            N02Error::UnknownInstitutionType(code) => N02Fault::UnknownInstitutionType(code@),
            N02Error::NoStationName(i) => N02Fault::NoStationName(*i as int),
        }
    }
}

impl N02Fault {
    pub open spec fn spec_text(self) -> Seq<char> {
        match self {
            N02Fault::Collection(e) => e.spec_text(),
            N02Fault::MissingGeometry => "feature is missing geometry"@,
            N02Fault::ShortPosition => "a position has fewer than two coordinates"@,
            N02Fault::UnexpectedGeometry => "unexpected geometry type"@,
            N02Fault::Missing(p) => "missing "@ + p.key() + " ("@ + p.spec_meaning() + ")"@,
            N02Fault::UnknownRailwayClass(code) => "未知の鉄道区分コードです: "@ + text::quoted(code),
            N02Fault::UnknownInstitutionType(code) => "未知の事業者種別コードです: "@ + text::quoted(code),
            N02Fault::NoStationName(i) => "駅名 (N02_005) を持たない行があります (行 "@
                + text::decimal_text(i as nat) + ")。路線のGeoJSONを渡していませんか"@,
        }
    }
}

impl N02Error {
    pub fn to_string(&self) -> (text: String)
        ensures
            text@ == self@.spec_text(),
    {
        let mut text = String::new();
        match self {
            N02Error::Collection(e) => {
                text.append(e.to_string().as_str());
            },
            N02Error::MissingGeometry => {
                text.append("feature is missing geometry");
            },
            N02Error::ShortPosition => {
                text.append("a position has fewer than two coordinates");
            },
            N02Error::UnexpectedGeometry => {
                text.append("unexpected geometry type");
            },
            N02Error::Missing(p) => {
                text.append("missing ");
                text.append(p.name());
                text.append(" (");
                text.append(p.meaning());
                text.append(")");
            },
            N02Error::UnknownRailwayClass(code) => {
                text.append("未知の鉄道区分コードです: ");
                text.append(quote(code.as_str()).as_str());
            },
            N02Error::UnknownInstitutionType(code) => {
                text.append("未知の事業者種別コードです: ");
                text.append(quote(code.as_str()).as_str());
            },
            N02Error::NoStationName(i) => {
                text.append("駅名 (N02_005) を持たない行があります (行 ");
                push_decimal(&mut text, *i as u64);
                text.append(")。路線のGeoJSONを渡していませんか");
            },
        }
        text
    }
}

// ---------------------------------------------------------------------------
// Reading
// ---------------------------------------------------------------------------

/// The line of a feature.
pub open spec fn line_in(geometry: Option<RawView>) -> Result<Seq<Coord>, N02Fault> {
    match geometry {
        None => Err(N02Fault::MissingGeometry),
        Some(RawView::Line(line)) => if features::line_complete(line) {
            Ok(features::coords(line))
        } else {
            Err(N02Fault::ShortPosition)
        },
        Some(_) => Err(N02Fault::UnexpectedGeometry),
    }
}

/// What a feature says.
pub open spec fn row_in(f: FeatureView) -> Result<RowView, N02Fault> {
    match line_in(f.geometry) {
        Err(e) => Err(e),
        Ok(line) => match (f.text("N02_001"@), f.text("N02_002"@)) {
            (None, _) => Err(N02Fault::Missing(Property::RailwayClass)),
            (_, None) => Err(N02Fault::Missing(Property::InstitutionType)),
            (Some(class), Some(institution)) => match (
                name_in(railway_class_list(), class),
                name_in(institution_type_list(), institution),
            ) {
                (None, _) => Err(N02Fault::UnknownRailwayClass(class)),
                (_, None) => Err(N02Fault::UnknownInstitutionType(institution)),
                (Some(class_name), Some(institution_name)) => match (
                    f.text("N02_003"@),
                    f.text("N02_004"@),
                ) {
                    (None, _) => Err(N02Fault::Missing(Property::LineName)),
                    (_, None) => Err(N02Fault::Missing(Property::Operator)),
                    (Some(line_name), Some(operator)) => Ok(
                        RowView {
                            railway_class_code: class,
                            railway_class: class_name,
                            institution_type_code: institution,
                            institution_type: institution_name,
                            line_name,
                            operator,
                            station_name: f.text("N02_005"@),
                            station_code: f.text("N02_005c"@),
                            station_group_code: f.text("N02_005g"@),
                            geometry: line,
                        },
                    ),
                },
            },
        },
    }
}

/// What features say, up to the first that cannot be read.
pub open spec fn rows_in(features: Seq<FeatureView>) -> Result<Seq<RowView>, N02Fault>
    decreases features.len(),
{
    if features.len() == 0 {
        Ok(Seq::empty())
    } else {
        match rows_in(features.drop_last()) {
            Err(e) => Err(e),
            Ok(rows) => match row_in(features.last()) {
                Err(e) => Err(e),
                Ok(row) => Ok(rows.push(row)),
            },
        }
    }
}

/// The bounds of rows together.
pub open spec fn rows_bounds(rows: Seq<RowView>) -> Bounds
    decreases rows.len(),
{
    if rows.len() == 0 {
        Bounds::spec_nothing()
    } else {
        rows_bounds(rows.drop_last()).spec_union(geo::line_bounds(rows.last().geometry))
    }
}

/// Rows in the coordinates of their source.
#[derive(Debug, PartialEq)]
pub struct Source {
    /// The EPSG code of the coordinates.
    pub epsg: u32,
    /// The bounds of all rows.
    pub bounds: Bounds,
    pub rows: Vec<Row>,
}

/// What a collection says: its reference system and its rows.
pub open spec fn source_in(c: CollectionView) -> Result<(u32, Seq<RowView>), N02Fault> {
    match features::epsg_of(c) {
        Err(e) => Err(N02Fault::Collection(e)),
        Ok(epsg) => match rows_in(c.features) {
            Err(e) => Err(e),
            Ok(rows) => Ok((epsg, rows)),
        },
    }
}

proof fn lemma_error_stays(all: Seq<FeatureView>, n: int)
    requires
        0 <= n <= all.len(),
        rows_in(all.take(n)) is Err,
    ensures
        rows_in(all) == rows_in(all.take(n)),
    decreases all.len(),
{
    if n == all.len() {
        assert(all.take(n) == all);
    } else {
        assert(all.drop_last().take(n) == all.take(n));
        lemma_error_stays(all.drop_last(), n);
    }
}

fn read_row(fc: &geojson::FeatureCollection, i: usize) -> (r: Result<Row, N02Error>)
    requires
        i < features::collection_of(*fc).features.len(),
    ensures
        match r {
            Ok(row) => row_in(features::collection_of(*fc).features[i as int]) == Ok::<
                RowView,
                N02Fault,
            >(row@),
            Err(e) => row_in(features::collection_of(*fc).features[i as int]) == Err::<
                RowView,
                N02Fault,
            >(e@),
        },
{
    let geometry = match feature_geometry(fc, i) {
        None => {
            return Err(N02Error::MissingGeometry);
        },
        Some(RawGeometry::Line(line)) => match line_coords(&line) {
            Some(coords) => coords,
            None => {
                return Err(N02Error::ShortPosition);
            },
        },
        Some(_) => {
            return Err(N02Error::UnexpectedGeometry);
        },
    };
    let railway_class_code = match feature_text(fc, i, "N02_001") {
        Some(s) => s,
        None => {
            return Err(N02Error::Missing(Property::RailwayClass));
        },
    };
    let institution_type_code = match feature_text(fc, i, "N02_002") {
        Some(s) => s,
        None => {
            return Err(N02Error::Missing(Property::InstitutionType));
        },
    };
    let railway_class = match resolve(&railway_classes(), railway_class_code.as_str()) {
        Some(name) => name,
        None => {
            return Err(N02Error::UnknownRailwayClass(railway_class_code));
        },
    };
    let institution_type = match resolve(&institution_types(), institution_type_code.as_str()) {
        Some(name) => name,
        None => {
            return Err(N02Error::UnknownInstitutionType(institution_type_code));
        },
    };
    let line_name = match feature_text(fc, i, "N02_003") {
        Some(s) => s,
        None => {
            return Err(N02Error::Missing(Property::LineName));
        },
    };
    let operator = match feature_text(fc, i, "N02_004") {
        Some(s) => s,
        None => {
            return Err(N02Error::Missing(Property::Operator));
        },
    };
    let row = Row {
        railway_class_code,
        railway_class,
        institution_type_code,
        institution_type,
        line_name,
        operator,
        station_name: feature_text(fc, i, "N02_005"),
        station_code: feature_text(fc, i, "N02_005c"),
        station_group_code: feature_text(fc, i, "N02_005g"),
        geometry,
    };
    Ok(row)
}

/// Reads the rows of a collection.
pub fn parse_collection(fc: &geojson::FeatureCollection) -> (r: Result<Source, N02Error>)
    ensures
        match r {
            Ok(s) => source_in(features::collection_of(*fc)) == Ok::<
                (u32, Seq<RowView>),
                N02Fault,
            >((s.epsg, rows_view(s.rows@))) && s.bounds == rows_bounds(rows_view(s.rows@)),
            Err(e) => source_in(features::collection_of(*fc)) == Err::<
                (u32, Seq<RowView>),
                N02Fault,
            >(e@),
        },
{
    let epsg: u32 = match extract_epsg(fc) {
        Ok(code) => code,
        Err(e) => {
            return Err(N02Error::Collection(e));
        },
    };
    let ghost all = features::collection_of(*fc).features;
    let n: usize = feature_count(fc);
    let mut rows: Vec<Row> = Vec::new();
    let mut bounds = Bounds::nothing();
    let mut i: usize = 0;
    assert(all.take(0) == Seq::<FeatureView>::empty());
    assert(rows_view(rows@) =~= Seq::<RowView>::empty());
    while i < n
        invariant
            i <= n == all.len(),
            all == features::collection_of(*fc).features,
            features::epsg_of(features::collection_of(*fc)) == Ok::<u32, CollectionFault>(epsg),
            rows_in(all.take(i as int)) == Ok::<Seq<RowView>, N02Fault>(rows_view(rows@)),
            bounds == rows_bounds(rows_view(rows@)),
        decreases n - i,
    {
        let ghost before = rows@;
        assert(all.take(i + 1).drop_last() == all.take(i as int));
        assert(all.take(i + 1).last() == all[i as int]);
        match read_row(fc, i) {
            Ok(row) => {
                let ghost view = row@;
                bounds = bounds.union(&bounds_of_line(&row.geometry));
                rows.push(row);
                assert(rows_view(rows@) =~= rows_view(before).push(view));
                assert(rows_view(rows@).drop_last() =~= rows_view(before));
            },
            Err(e) => {
                proof {
                    lemma_error_stays(all, i + 1);
                }
                return Err(e);
            },
        }
        i = i + 1;
    }
    assert(all.take(i as int) == all);
    Ok(Source { epsg, bounds, rows })
}

/// What a GeoJSON text says.
pub open spec fn source_in_text(text: Seq<char>) -> Result<(u32, Seq<RowView>), N02Fault> {
    match features::collection_in(text) {
        Err(e) => Err(N02Fault::Collection(e)),
        Ok(c) => source_in(c),
    }
}

/// Reads the rows of a GeoJSON text, of lines or of stations.
pub fn parse_geojson(geojson_str: &str) -> (r: Result<Source, N02Error>)
    ensures
        match r {
            Ok(s) => source_in_text(geojson_str@) == Ok::<(u32, Seq<RowView>), N02Fault>(
                (s.epsg, rows_view(s.rows@)),
            ) && s.bounds == rows_bounds(rows_view(s.rows@)),
            Err(e) => source_in_text(geojson_str@) == Err::<(u32, Seq<RowView>), N02Fault>(e@),
        },
{
    match read_collection(geojson_str) {
        Ok(fc) => parse_collection(&fc),
        Err(e) => Err(N02Error::Collection(e)),
    }
}

// ---------------------------------------------------------------------------
// Archives
// ---------------------------------------------------------------------------

/// Which of the two collections in an archive is meant.
#[derive(Debug, Clone, Copy, PartialEq, Eq, Structural)]
pub enum Part {
    Sections,
    Stations,
}

impl Part {
    /// The part of that name.
    pub open spec fn named(name: Seq<char>) -> Option<Part> {
        if name == "sections"@ {
            Some(Part::Sections)
        } else if name == "stations"@ {
            Some(Part::Stations)
        } else {
            None
        }
    }

    pub fn parse(name: &str) -> (part: Option<Part>)
        ensures
            part == Part::named(name@),
    {
        if same_text(name, "sections") {
            Some(Part::Sections)
        } else if same_text(name, "stations") {
            Some(Part::Stations)
        } else {
            None
        }
    }

    /// The entry with the collection.
    pub open spec fn spec_rule(self) -> NameRule {
        NameRule {
            suffix: match self {
                Part::Sections => "_RailroadSection.geojson",
                Part::Stations => "_Station.geojson",
            },
            with: None,
            without: None,
        }
    }

    fn rule(&self) -> (rule: NameRule)
        ensures
            rule == self.spec_rule(),
    {
        NameRule {
            suffix: match self {
                Part::Sections => "_RailroadSection.geojson",
                Part::Stations => "_Station.geojson",
            },
            with: None,
            without: None,
        }
    }
}

/// The entry with the metadata.
pub open spec fn spec_metadata_rule() -> NameRule {
    NameRule { suffix: ".xml", with: Some("KS-META-"), without: None }
}

/// Why an archive could not be read.
#[derive(Debug, PartialEq)]
pub enum N02ZipError {
    Text(ZipTextError),
    Metadata(ZipTextError),
    Vintage(VintageError),
    Rows(N02Error),
}

/// The view of an [`N02ZipError`].
pub enum N02ZipFault {
    Text(ZipTextFault),
    Metadata(ZipTextFault),
    Vintage(VintageFault),
    Rows(N02Fault),
}

impl View for N02ZipError {
    type V = N02ZipFault;

    open spec fn view(&self) -> N02ZipFault {
        match self {
            N02ZipError::Text(e) => N02ZipFault::Text(e@),
            N02ZipError::Metadata(e) => N02ZipFault::Metadata(e@),
            N02ZipError::Vintage(e) => N02ZipFault::Vintage(e@),
            N02ZipError::Rows(e) => N02ZipFault::Rows(e@),
        }
    }
}

impl N02ZipError {
    pub fn to_string(&self) -> (text: String)
        ensures
            text@ == (match self@ {
                N02ZipFault::Text(e) => e.spec_text("N02 geojson"@),
                N02ZipFault::Metadata(e) => e.spec_text("N02 metadata XML"@),
                N02ZipFault::Vintage(e) => e.spec_text(),
                N02ZipFault::Rows(e) => e.spec_text(),
            }),
    {
        match self {
            N02ZipError::Text(e) => e.to_text("N02 geojson"),
            N02ZipError::Metadata(e) => e.to_text("N02 metadata XML"),
            N02ZipError::Vintage(e) => e.to_string(),
            N02ZipError::Rows(e) => e.to_string(),
        }
    }
}

/// What an archive says: the date of its data, its reference system and its rows.
pub open spec fn archive_in(zip: Seq<u8>, part: Part) -> Result<
    (Seq<char>, u32, Seq<RowView>),
    N02ZipFault,
> {
    match archive::utf8_by_rule(zip, part.spec_rule()) {
        Err(e) => Err(N02ZipFault::Text(e)),
        Ok(text) => match archive::utf8_by_rule(zip, spec_metadata_rule()) {
            Err(e) => Err(N02ZipFault::Metadata(e)),
            Ok(xml) => match metadata::vintage_in_text(xml) {
                Err(e) => Err(N02ZipFault::Vintage(e)),
                Ok(vintage) => match source_in_text(text) {
                    Err(e) => Err(N02ZipFault::Rows(e)),
                    Ok((epsg, rows)) => Ok((vintage, epsg, rows)),
                },
            },
        },
    }
}

/// Reads one part of a distributed archive, with the date of its data.
pub fn parse_zip(zip: &Vec<u8>, part: Part) -> (r: Result<(Source, String), N02ZipError>)
    ensures
        match r {
            Ok((s, vintage)) => archive_in(zip@, part) == Ok::<
                (Seq<char>, u32, Seq<RowView>),
                N02ZipFault,
            >((vintage@, s.epsg, rows_view(s.rows@))) && s.bounds == rows_bounds(
                rows_view(s.rows@),
            ),
            Err(e) => archive_in(zip@, part) == Err::<
                (Seq<char>, u32, Seq<RowView>),
                N02ZipFault,
            >(e@),
        },
{
    let text = match read_utf8_by(zip, part.rule()) {
        Ok(text) => text,
        Err(e) => {
            return Err(N02ZipError::Text(e));
        },
    };
    let rule = NameRule { suffix: ".xml", with: Some("KS-META-"), without: None };
    let xml = match read_utf8_by(zip, rule) {
        Ok(xml) => xml,
        Err(e) => {
            return Err(N02ZipError::Metadata(e));
        },
    };
    let vintage = match extract_vintage(xml.as_str()) {
        Ok(vintage) => vintage,
        Err(e) => {
            return Err(N02ZipError::Vintage(e));
        },
    };
    match parse_geojson(text.as_str()) {
        Ok(s) => Ok((s, vintage)),
        Err(e) => Err(N02ZipError::Rows(e)),
    }
}

// ---------------------------------------------------------------------------
// Columns
// ---------------------------------------------------------------------------

/// A text that every row has.
#[derive(Clone, Copy)]
enum Field {
    RailwayClass,
    RailwayClassCode,
    InstitutionType,
    InstitutionTypeCode,
    LineName,
    Operator,
}

spec fn text_of(row: RowView, field: Field) -> Seq<char> {
    match field {
        Field::RailwayClass => row.railway_class,
        Field::RailwayClassCode => row.railway_class_code,
        Field::InstitutionType => row.institution_type,
        Field::InstitutionTypeCode => row.institution_type_code,
        Field::LineName => row.line_name,
        Field::Operator => row.operator,
    }
}

fn pick(row: &Row, field: Field) -> (s: String)
    ensures
        s@ == text_of(row@, field),
{
    match field {
        Field::RailwayClass => row.railway_class.clone(),
        Field::RailwayClassCode => row.railway_class_code.clone(),
        Field::InstitutionType => row.institution_type.clone(),
        Field::InstitutionTypeCode => row.institution_type_code.clone(),
        Field::LineName => row.line_name.clone(),
        Field::Operator => row.operator.clone(),
    }
}

fn text_column(rows: &Vec<Row>, name: &str, field: Field) -> (c: Column)
    ensures
        c.holds_texts(
            name@,
            Seq::new(rows@.len(), |i: int| text_of(rows_view(rows@)[i], field)),
        ),
{
    let mut values: Vec<String> = Vec::new();
    let mut i: usize = 0;
    while i < rows.len()
        invariant
            i <= rows@.len(),
            values@.len() == i,
            forall|k: int| 0 <= k < i ==> (#[trigger] values@[k])@ == text_of(rows@[k]@, field),
        decreases rows@.len() - i,
    {
        values.push(pick(&rows[i], field));
        i = i + 1;
    }
    assert(text::texts(values@) =~= Seq::new(
        rows@.len(),
        |i: int| text_of(rows_view(rows@)[i], field),
    ));
    utf8_column(name, values)
}

/// The columns that sections and stations share: names, and the codes that
/// they were resolved from.
pub open spec fn shared_columns_hold(columns: Seq<Column>, rows: Seq<RowView>) -> bool {
    let n = rows.len();
    &&& columns.len() >= 6
    &&& columns[0].holds_texts("railway_class"@, Seq::new(n, |i: int| rows[i].railway_class))
    &&& columns[1].holds_texts(
        "railway_class_code"@,
        Seq::new(n, |i: int| rows[i].railway_class_code),
    )
    &&& columns[2].holds_texts(
        "institution_type"@,
        Seq::new(n, |i: int| rows[i].institution_type),
    )
    &&& columns[3].holds_texts(
        "institution_type_code"@,
        Seq::new(n, |i: int| rows[i].institution_type_code),
    )
    &&& columns[4].holds_texts("line_name"@, Seq::new(n, |i: int| rows[i].line_name))
    &&& columns[5].holds_texts("operator"@, Seq::new(n, |i: int| rows[i].operator))
}

/// The columns of a file of sections.
pub fn section_columns(rows: &Vec<Row>) -> (columns: Vec<Column>)
    ensures
        columns@.len() == 6,
        shared_columns_hold(columns@, rows_view(rows@)),
{
    let ghost all = rows_view(rows@);
    let ghost n = all.len();
    let mut columns: Vec<Column> = Vec::new();
    columns.push(text_column(rows, "railway_class", Field::RailwayClass));
    columns.push(text_column(rows, "railway_class_code", Field::RailwayClassCode));
    columns.push(text_column(rows, "institution_type", Field::InstitutionType));
    columns.push(text_column(rows, "institution_type_code", Field::InstitutionTypeCode));
    columns.push(text_column(rows, "line_name", Field::LineName));
    columns.push(text_column(rows, "operator", Field::Operator));
    proof {
        assert(Seq::new(n, |i: int| text_of(all[i], Field::RailwayClass)) =~= Seq::new(
            n,
            |i: int| all[i].railway_class,
        ));
        assert(Seq::new(n, |i: int| text_of(all[i], Field::RailwayClassCode)) =~= Seq::new(
            n,
            |i: int| all[i].railway_class_code,
        ));
        assert(Seq::new(n, |i: int| text_of(all[i], Field::InstitutionType)) =~= Seq::new(
            n,
            |i: int| all[i].institution_type,
        ));
        assert(Seq::new(n, |i: int| text_of(all[i], Field::InstitutionTypeCode)) =~= Seq::new(
            n,
            |i: int| all[i].institution_type_code,
        ));
        assert(Seq::new(n, |i: int| text_of(all[i], Field::LineName)) =~= Seq::new(
            n,
            |i: int| all[i].line_name,
        ));
        assert(Seq::new(n, |i: int| text_of(all[i], Field::Operator)) =~= Seq::new(
            n,
            |i: int| all[i].operator,
        ));
    }
    columns
}

/// The first row without a station name; the number of rows where all have one.
pub open spec fn first_nameless(rows: Seq<RowView>) -> int
    decreases rows.len(),
{
    if rows.len() == 0 || rows[0].station_name is None {
        0
    } else {
        1 + first_nameless(rows.drop_first())
    }
}

/// The columns of a file of stations hold what the rows say.
pub open spec fn station_columns_hold(columns: Seq<Column>, all: Seq<RowView>) -> bool {
    let n = all.len();
    &&& columns.len() == 9
    &&& shared_columns_hold(columns, all)
    &&& columns[6].holds_texts("station_name"@, Seq::new(n, |i: int| all[i].station_name->0))
    &&& columns[7].holds_optional_texts(
        "station_code"@,
        Seq::new(n, |i: int| all[i].station_code),
    )
    &&& columns[8].holds_optional_texts(
        "station_group_code"@,
        Seq::new(n, |i: int| all[i].station_group_code),
    )
}

/// The columns of a file of stations. Rows without a station name are no
/// stations: the first of them is an error.
pub fn station_columns(rows: &Vec<Row>) -> (r: Result<Vec<Column>, N02Error>)
    ensures
        ({
            let all = rows_view(rows@);
            let n = all.len();
            match r {
                Ok(columns) => first_nameless(all) == n && station_columns_hold(columns@, all),
                Err(e) => first_nameless(all) < n && e@ == N02Fault::NoStationName(
                    first_nameless(all),
                ),
            }
        }),
{
    let ghost all = rows_view(rows@);
    let mut names: Vec<String> = Vec::new();
    let mut codes: Vec<Option<String>> = Vec::new();
    let mut groups: Vec<Option<String>> = Vec::new();
    let mut i: usize = 0;
    assert(all.skip(0) == all);
    while i < rows.len()
        invariant
            i <= rows@.len(),
            all == rows_view(rows@),
            first_nameless(all) == i + first_nameless(all.skip(i as int)),
            names@.len() == i,
            codes@.len() == i,
            groups@.len() == i,
            forall|k: int| 0 <= k < i ==> all[k].station_name == Some((#[trigger] names@[k])@),
            forall|k: int|
                0 <= k < i ==> text::optional_view(#[trigger] codes@[k]) == all[k].station_code,
            forall|k: int|
                0 <= k < i ==> text::optional_view(#[trigger] groups@[k]) == all[k].station_group_code,
        decreases rows@.len() - i,
    {
        assert(all.skip(i as int)[0] == all[i as int]);
        assert(all.skip(i as int).drop_first() == all.skip(i + 1));
        match &rows[i].station_name {
            Some(name) => {
                names.push(name.clone());
            },
            None => {
                return Err(N02Error::NoStationName(i));
            },
        }
        codes.push(copy_optional(&rows[i].station_code));
        groups.push(copy_optional(&rows[i].station_group_code));
        i = i + 1;
    }
    proof {
        assert(text::texts(names@) =~= Seq::new(all.len(), |i: int| all[i].station_name->0));
        assert(crate::geoparquet::optional_texts(codes@) =~= Seq::new(
            all.len(),
            |i: int| all[i].station_code,
        ));
        assert(crate::geoparquet::optional_texts(groups@) =~= Seq::new(
            all.len(),
            |i: int| all[i].station_group_code,
        ));
    }
    let mut columns = section_columns(rows);
    let ghost shared = columns@;
    columns.push(utf8_column("station_name", names));
    columns.push(utf8_nullable_column("station_code", codes));
    columns.push(utf8_nullable_column("station_group_code", groups));
    assert(forall|k: int| 0 <= k < 6 ==> columns@[k] == shared[k]);
    Ok(columns)
}

/// A resolved name always belongs to the code beside it.
pub proof fn law_names_belong_to_codes(features: Seq<FeatureView>, i: int)
    requires
        rows_in(features) is Ok,
        0 <= i < rows_in(features)->Ok_0.len(),
    ensures
        ({
            let row = rows_in(features)->Ok_0[i];
            &&& name_in(railway_class_list(), row.railway_class_code) == Some(row.railway_class)
            &&& name_in(institution_type_list(), row.institution_type_code) == Some(
                row.institution_type,
            )
        }),
    decreases features.len(),
{
    if features.len() > 0 {
        let rest = rows_in(features.drop_last())->Ok_0;
        if i < rest.len() {
            law_names_belong_to_codes(features.drop_last(), i);
        }
    }
}

// ---------------------------------------------------------------------------
// Reference systems
// ---------------------------------------------------------------------------

/// A row was moved: its geometry, and nothing else.
pub open spec fn row_moved<F: Fn(&Vec<Coord>) -> Option<Vec<Coord>>>(
    transform: F,
    before: Row,
    after: Row,
) -> bool {
    &&& after@ == (RowView { geometry: after@.geometry, ..before@ })
    &&& transform::line_moved(transform, before.geometry, after.geometry@)
}

impl Source {
    /// The rows in WGS84. `transform` moves the points of a line there from the
    /// reference system of the source.
    pub fn to_wgs84<F: Fn(&Vec<Coord>) -> Option<Vec<Coord>>>(self, transform: F) -> (r: Result<
        Vec<Row>,
        TransformError,
    >)
        requires
            transform::total(transform),
        ensures
            match r {
                Ok(rows) => {
                    &&& rows@.len() == self.rows@.len()
                    &&& forall|i: int|
                        #![trigger rows@[i]]
                        0 <= i < rows@.len() ==> row_moved(transform, self.rows@[i], rows@[i])
                },
                Err(_) => exists|i: int|
                    0 <= i < self.rows@.len() && transform::refuses(
                        transform,
                        (#[trigger] self.rows@[i]).geometry,
                    ),
            },
    {
        let mut rows: Vec<Row> = Vec::new();
        let mut i: usize = 0;
        while i < self.rows.len()
            invariant
                i <= self.rows@.len(),
                transform::total(transform),
                rows@.len() == i,
                forall|j: int|
                    #![trigger rows@[j]]
                    0 <= j < i ==> row_moved(transform, self.rows@[j], rows@[j]),
            decreases self.rows@.len() - i,
        {
            let row = &self.rows[i];
            let geometry = match transform_line(&row.geometry, &transform) {
                Ok(geometry) => geometry,
                Err(e) => {
                    return Err(e);
                },
            };
            rows.push(
                Row {
                    railway_class_code: row.railway_class_code.clone(),
                    railway_class: row.railway_class.clone(),
                    institution_type_code: row.institution_type_code.clone(),
                    institution_type: row.institution_type.clone(),
                    line_name: row.line_name.clone(),
                    operator: row.operator.clone(),
                    station_name: copy_optional(&row.station_name),
                    station_code: copy_optional(&row.station_code),
                    station_group_code: copy_optional(&row.station_group_code),
                    geometry,
                },
            );
            i = i + 1;
        }
        Ok(rows)
    }
}

// ---------------------------------------------------------------------------
// Files
// ---------------------------------------------------------------------------

/// The geometries of a file of rows.
pub open spec fn shapes_of(all: Seq<RowView>) -> Seq<ShapeView> {
    Seq::new(all.len(), |i: int| ShapeView::Line(all[i].geometry))
}

fn shapes_in(rows: &Vec<Row>) -> (shapes: Vec<Shape>)
    ensures
        geoparquet::shape_views(shapes@) == shapes_of(rows_view(rows@)),
{
    let ghost want = shapes_of(rows_view(rows@));
    let mut shapes: Vec<Shape> = Vec::new();
    let mut i: usize = 0;
    while i < rows.len()
        invariant
            i <= rows@.len(),
            want == shapes_of(rows_view(rows@)),
            shapes@.len() == i,
            forall|j: int| 0 <= j < i ==> (#[trigger] shapes@[j])@ == want[j],
        decreases rows@.len() - i,
    {
        shapes.push(Shape::Line(copy_line(&rows[i].geometry)));
        i = i + 1;
    }
    assert(geoparquet::shape_views(shapes@) =~= want);
    shapes
}

/// The file that sections in WGS84 go into.
pub fn section_table(rows: &Vec<Row>, vintage: Option<String>) -> (r: Result<Table, TableError>)
    ensures
        match r {
            Ok(t) => {
                &&& t.columns@.len() == 6
                &&& shared_columns_hold(t.columns@, rows_view(rows@))
                &&& t.is_of(
                    shapes_of(rows_view(rows@)),
                    "LineString"@,
                    (Provenance { via: None, vintage }),
                )
            },
            Err(e) => e == TableError::Geometry && geoparquet::unencodable(
                shapes_of(rows_view(rows@)),
            ),
        },
{
    let shapes = shapes_in(rows);
    let provenance = Provenance { via: None, vintage };
    table_of_shapes(section_columns(rows), &shapes, "LineString", &provenance)
}

/// Why stations do not go into a file.
#[derive(Debug, PartialEq)]
pub enum StationTableError {
    Rows(N02Error),
    Table(TableError),
}

/// The file that stations in WGS84 go into. Rows without the name of a station
/// are none, so a file of sections is not taken for one.
pub fn station_table(rows: &Vec<Row>, vintage: Option<String>) -> (r: Result<
    Table,
    StationTableError,
>)
    ensures
        ({
            let all = rows_view(rows@);
            match r {
                Ok(t) => {
                    &&& first_nameless(all) == all.len()
                    &&& station_columns_hold(t.columns@, all)
                    &&& t.is_of(
                        shapes_of(all),
                        "LineString"@,
                        (Provenance { via: None, vintage }),
                    )
                },
                Err(StationTableError::Rows(e)) => first_nameless(all) < all.len() && e@
                    == N02Fault::NoStationName(first_nameless(all)),
                Err(StationTableError::Table(e)) => first_nameless(all) == all.len() && e
                    == TableError::Geometry && geoparquet::unencodable(shapes_of(all)),
            }
        }),
{
    let columns = match station_columns(rows) {
        Ok(columns) => columns,
        Err(e) => {
            return Err(StationTableError::Rows(e));
        },
    };
    let shapes = shapes_in(rows);
    let provenance = Provenance { via: None, vintage };
    match table_of_shapes(columns, &shapes, "LineString", &provenance) {
        Ok(t) => Ok(t),
        Err(e) => Err(StationTableError::Table(e)),
    }
}

/// Rows are read one by one, in order: all of them are there where each feature
/// can be read, and otherwise the first that cannot says why.
pub proof fn law_features_are_read_one_by_one(features: Seq<FeatureView>)
    ensures
        rows_in(features) is Ok <==> forall|i: int|
            #![trigger features[i]]
            0 <= i < features.len() ==> row_in(features[i]) is Ok,
        rows_in(features) is Ok ==> rows_in(features)->Ok_0.len() == features.len(),
        rows_in(features) is Ok ==> forall|i: int|
            #![trigger features[i]]
            0 <= i < features.len() ==> row_in(features[i]) == Ok::<RowView, N02Fault>(
                rows_in(features)->Ok_0[i],
            ),
        rows_in(features) is Err ==> exists|i: int|
            #![trigger features[i]]
            0 <= i < features.len() && row_in(features[i]) == Err::<RowView, N02Fault>(
                rows_in(features)->Err_0,
            ) && forall|j: int|
                #![trigger features[j]]
                0 <= j < i ==> row_in(features[j]) is Ok,
    decreases features.len(),
{
    if features.len() > 0 {
        let rest = features.drop_last();
        let last = features.len() - 1;
        law_features_are_read_one_by_one(rest);
        assert(forall|i: int|
            #![trigger features[i]]
            0 <= i < last ==> features[i] == rest[i]);
        assert(forall|i: int|
            #![trigger rest[i]]
            0 <= i < last ==> features[i] == rest[i]);
        assert(features[last] == features.last());
        if rows_in(rest) is Err {
            let i = choose|i: int|
                #![trigger rest[i]]
                0 <= i < rest.len() && row_in(rest[i]) == Err::<RowView, N02Fault>(
                    rows_in(rest)->Err_0,
                ) && forall|j: int|
                    #![trigger rest[j]]
                    0 <= j < i ==> row_in(rest[j]) is Ok;
            assert(row_in(features[i]) is Err);
            assert forall|j: int|
                #![trigger features[j]]
                0 <= j < i implies row_in(features[j]) is Ok by {
                assert(row_in(rest[j]) is Ok);
            }
        } else if row_in(features.last()) is Err {
            assert forall|j: int|
                #![trigger features[j]]
                0 <= j < last implies row_in(features[j]) is Ok by {
                assert(row_in(rest[j]) is Ok);
            }
        } else {
            assert forall|i: int|
                #![trigger features[i]]
                0 <= i < features.len() implies row_in(features[i]) == Ok::<RowView, N02Fault>(
                rows_in(features)->Ok_0[i],
            ) by {
                if i < last {
                    assert(row_in(rest[i]) == Ok::<RowView, N02Fault>(rows_in(rest)->Ok_0[i]));
                }
            }
        }
    }
}

/// Of each feature that is read, the row has the railway class from `N02_001`,
/// the type of its operator from `N02_002`, the line from `N02_003`, the operator
/// from `N02_004`, and of a station its name from `N02_005`, its code from
/// `N02_005c` and that of its group from `N02_005g`. There is one row for each
/// feature, in order.
pub proof fn law_texts_come_from_their_properties(
    text: Seq<char>,
    c: CollectionView,
    s: Source,
    i: int,
)
    requires
        features::collection_in(text) == Ok::<CollectionView, CollectionFault>(c),
        source_in_text(text) == Ok::<(u32, Seq<RowView>), N02Fault>((s.epsg, rows_view(s.rows@))),
        0 <= i < c.features.len(),
    ensures
        s.rows@.len() == c.features.len(),
        c.features[i].text("N02_001"@) == Some(s.rows@[i].railway_class_code@),
        c.features[i].text("N02_002"@) == Some(s.rows@[i].institution_type_code@),
        c.features[i].text("N02_003"@) == Some(s.rows@[i].line_name@),
        c.features[i].text("N02_004"@) == Some(s.rows@[i].operator@),
        c.features[i].text("N02_005"@) == text::optional_view(s.rows@[i].station_name),
        c.features[i].text("N02_005c"@) == text::optional_view(s.rows@[i].station_code),
        c.features[i].text("N02_005g"@) == text::optional_view(s.rows@[i].station_group_code),
        c.features[i].geometry is Some && c.features[i].geometry->0 is Line,
        features::follows(s.rows@[i].geometry@, c.features[i].geometry->0->Line_0),
        class_called(s.rows@[i].railway_class_code@, s.rows@[i].railway_class@),
        institution_called(s.rows@[i].institution_type_code@, s.rows@[i].institution_type@),
        features::epsg_of(c) == Ok::<u32, CollectionFault>(s.epsg),
{
    law_features_are_read_one_by_one(c.features);
    assert(rows_view(s.rows@).len() == s.rows@.len());
    assert(row_in(c.features[i]) == Ok::<RowView, N02Fault>(rows_view(s.rows@)[i]));
    assert(rows_view(s.rows@)[i] == s.rows@[i]@);
    law_classes_have_their_names(s.rows@[i].railway_class_code@, s.rows@[i].railway_class@);
    law_institutions_have_their_names(
        s.rows@[i].institution_type_code@,
        s.rows@[i].institution_type@,
    );
}

/// What the codes of railway classes stand for.
pub open spec fn class_called(code: Seq<char>, name: Seq<char>) -> bool {
    ||| code == "11"@ && name == "普通鉄道JR"@
    ||| code == "12"@ && name == "普通鉄道"@
    ||| code == "13"@ && name == "鋼索鉄道"@
    ||| code == "14"@ && name == "懸垂式鉄道"@
    ||| code == "15"@ && name == "跨座式鉄道"@
    ||| code == "16"@ && name == "案内軌条式鉄道"@
    ||| code == "17"@ && name == "無軌条鉄道"@
    ||| code == "21"@ && name == "軌道"@
    ||| code == "22"@ && name == "懸垂式モノレール"@
    ||| code == "23"@ && name == "跨座式モノレール"@
    ||| code == "24"@ && name == "案内軌条式"@
    ||| code == "25"@ && name == "浮上式"@
}

/// What the codes of types of operators stand for.
pub open spec fn institution_called(code: Seq<char>, name: Seq<char>) -> bool {
    ||| code == "1"@ && name == "JRの新幹線"@
    ||| code == "2"@ && name == "JR在来線"@
    ||| code == "3"@ && name == "公営鉄道"@
    ||| code == "4"@ && name == "民営鉄道"@
    ||| code == "5"@ && name == "第三セクター"@
}

/// The name that is found for a code of a railway class is the one that it
/// stands for, and no other code has one.
pub proof fn law_classes_have_their_names(code: Seq<char>, name: Seq<char>)
    ensures
        name_in(railway_class_list(), code) == Some(name) <==> class_called(code, name),
{
    reveal_strlit("11");
    reveal_strlit("12");
    reveal_strlit("13");
    reveal_strlit("14");
    reveal_strlit("15");
    reveal_strlit("16");
    reveal_strlit("17");
    reveal_strlit("21");
    reveal_strlit("22");
    reveal_strlit("23");
    reveal_strlit("24");
    reveal_strlit("25");
    let list = railway_class_list();
    lemma_name_at(list, code);
    assert(list.len() == 12);
    assert(list[0].0 == "11"@ && list[0].1 == "普通鉄道JR"@);
    assert(list[1].0 == "12"@ && list[1].1 == "普通鉄道"@);
    assert(list[2].0 == "13"@ && list[2].1 == "鋼索鉄道"@);
    assert(list[3].0 == "14"@ && list[3].1 == "懸垂式鉄道"@);
    assert(list[4].0 == "15"@ && list[4].1 == "跨座式鉄道"@);
    assert(list[5].0 == "16"@ && list[5].1 == "案内軌条式鉄道"@);
    assert(list[6].0 == "17"@ && list[6].1 == "無軌条鉄道"@);
    assert(list[7].0 == "21"@ && list[7].1 == "軌道"@);
    assert(list[8].0 == "22"@ && list[8].1 == "懸垂式モノレール"@);
    assert(list[9].0 == "23"@ && list[9].1 == "跨座式モノレール"@);
    assert(list[10].0 == "24"@ && list[10].1 == "案内軌条式"@);
    assert(list[11].0 == "25"@ && list[11].1 == "浮上式"@);
    assert("11"@.len() == 2 && "11"@[0] == '1' && "11"@[1] == '1');
    assert("12"@.len() == 2 && "12"@[0] == '1' && "12"@[1] == '2');
    assert("13"@.len() == 2 && "13"@[0] == '1' && "13"@[1] == '3');
    assert("14"@.len() == 2 && "14"@[0] == '1' && "14"@[1] == '4');
    assert("15"@.len() == 2 && "15"@[0] == '1' && "15"@[1] == '5');
    assert("16"@.len() == 2 && "16"@[0] == '1' && "16"@[1] == '6');
    assert("17"@.len() == 2 && "17"@[0] == '1' && "17"@[1] == '7');
    assert("21"@.len() == 2 && "21"@[0] == '2' && "21"@[1] == '1');
    assert("22"@.len() == 2 && "22"@[0] == '2' && "22"@[1] == '2');
    assert("23"@.len() == 2 && "23"@[0] == '2' && "23"@[1] == '3');
    assert("24"@.len() == 2 && "24"@[0] == '2' && "24"@[1] == '4');
    assert("25"@.len() == 2 && "25"@[0] == '2' && "25"@[1] == '5');
}

/// The same of the types of operators.
pub proof fn law_institutions_have_their_names(code: Seq<char>, name: Seq<char>)
    ensures
        name_in(institution_type_list(), code) == Some(name) <==> institution_called(code, name),
{
    reveal_strlit("1");
    reveal_strlit("2");
    reveal_strlit("3");
    reveal_strlit("4");
    reveal_strlit("5");
    let list = institution_type_list();
    lemma_name_at(list, code);
    assert(list.len() == 5);
    assert(list[0].0 == "1"@ && list[0].1 == "JRの新幹線"@);
    assert(list[1].0 == "2"@ && list[1].1 == "JR在来線"@);
    assert(list[2].0 == "3"@ && list[2].1 == "公営鉄道"@);
    assert(list[3].0 == "4"@ && list[3].1 == "民営鉄道"@);
    assert(list[4].0 == "5"@ && list[4].1 == "第三セクター"@);
    assert("1"@.len() == 1 && "1"@[0] == '1');
    assert("2"@.len() == 1 && "2"@[0] == '2');
    assert("3"@.len() == 1 && "3"@[0] == '3');
    assert("4"@.len() == 1 && "4"@[0] == '4');
    assert("5"@.len() == 1 && "5"@[0] == '5');
}

/// The name of a code is that of its first place in the list.
proof fn lemma_name_at(list: Seq<(Seq<char>, Seq<char>)>, code: Seq<char>)
    ensures
        name_in(list, code) is None <==> forall|i: int|
            #![trigger list[i]]
            0 <= i < list.len() ==> list[i].0 != code,
        name_in(list, code) is Some ==> exists|i: int|
            #![trigger list[i]]
            0 <= i < list.len() && list[i].0 == code && list[i].1 == name_in(list, code)->0,
    decreases list.len(),
{
    if list.len() > 0 {
        let rest = list.drop_first();
        lemma_name_at(rest, code);
        assert(forall|i: int|
            #![trigger rest[i]]
            0 <= i < rest.len() ==> rest[i] == list[i + 1]);
        assert(forall|i: int|
            #![trigger list[i]]
            1 <= i < list.len() ==> list[i] == rest[i - 1]);
        if list[0].0 != code && name_in(rest, code) is Some {
            let i = choose|i: int|
                #![trigger rest[i]]
                0 <= i < rest.len() && rest[i].0 == code && rest[i].1 == name_in(rest, code)->0;
            assert(list[i + 1].0 == code && list[i + 1].1 == name_in(list, code)->0);
        }
    }
}

/// A feature is read where it is a line whose positions have two numbers or
/// more, with the name of its line and of its operator and with codes that are
/// known; nothing else is asked.
pub proof fn law_features_are_read_where_known(f: FeatureView)
    ensures
        row_in(f) is Ok <==> {
            &&& f.geometry is Some && f.geometry->0 is Line
            &&& features::line_complete(f.geometry->0->Line_0)
            &&& f.text("N02_001"@) is Some && name_in(
                railway_class_list(),
                f.text("N02_001"@)->0,
            ) is Some
            &&& f.text("N02_002"@) is Some && name_in(
                institution_type_list(),
                f.text("N02_002"@)->0,
            ) is Some
            &&& f.text("N02_003"@) is Some
            &&& f.text("N02_004"@) is Some
        },
{
}

/// The bounds of rows are those of their geometries together.
pub proof fn law_extent_is_that_of_the_lines(rows: Seq<RowView>)
    ensures
        rows_bounds(rows) == geoparquet::shapes_bounds(shapes_of(rows)),
        shapes_of(rows).len() == rows.len(),
        forall|i: int|
            #![trigger shapes_of(rows)[i]]
            0 <= i < rows.len() ==> shapes_of(rows)[i] == ShapeView::Line(rows[i].geometry),
    decreases rows.len(),
{
    if rows.len() > 0 {
        law_extent_is_that_of_the_lines(rows.drop_last());
        assert(shapes_of(rows).drop_last() =~= shapes_of(rows.drop_last()));
    }
}

/// The bounds of rows hold every point of every line, and each side is reached
/// by one of them, where all are finite.
pub proof fn law_extent_is_tight(rows: Seq<RowView>, vertex: Coord)
    requires
        geo::finite_points(|c: Coord| geoparquet::on_shapes(shapes_of(rows), c)),
        geoparquet::on_shapes(shapes_of(rows), vertex),
    ensures
        geo::tight(rows_bounds(rows), |c: Coord| geoparquet::on_shapes(shapes_of(rows), c)),
{
    law_extent_is_that_of_the_lines(rows);
    geoparquet::law_file_bounds_are_tight(shapes_of(rows), vertex);
}

/// A file of sections has one row for each, in order, and its columns say under
/// their names what the sections say.
pub proof fn law_columns_tell_of_sections(columns: Seq<Column>, rows: Seq<Row>, i: int)
    requires
        shared_columns_hold(columns, rows_view(rows)),
        0 <= i < rows.len(),
    ensures
        forall|k: int| 0 <= k < 6 ==> (#[trigger] columns[k]).height() == rows.len(),
        columns[0].name@ == "railway_class"@ && columns[0].text_at(i) == Some(
            rows[i].railway_class@,
        ),
        columns[1].name@ == "railway_class_code"@ && columns[1].text_at(i) == Some(
            rows[i].railway_class_code@,
        ),
        columns[2].name@ == "institution_type"@ && columns[2].text_at(i) == Some(
            rows[i].institution_type@,
        ),
        columns[3].name@ == "institution_type_code"@ && columns[3].text_at(i) == Some(
            rows[i].institution_type_code@,
        ),
        columns[4].name@ == "line_name"@ && columns[4].text_at(i) == Some(rows[i].line_name@),
        columns[5].name@ == "operator"@ && columns[5].text_at(i) == Some(rows[i].operator@),
{
    let all = rows_view(rows);
    let n = all.len();
    let a0 = Seq::new(n, |i: int| all[i].railway_class);
    let a1 = Seq::new(n, |i: int| all[i].railway_class_code);
    let a2 = Seq::new(n, |i: int| all[i].institution_type);
    let a3 = Seq::new(n, |i: int| all[i].institution_type_code);
    let a4 = Seq::new(n, |i: int| all[i].line_name);
    let a5 = Seq::new(n, |i: int| all[i].operator);
    geoparquet::lemma_text_column(columns[0], "railway_class"@, a0);
    geoparquet::lemma_text_column(columns[1], "railway_class_code"@, a1);
    geoparquet::lemma_text_column(columns[2], "institution_type"@, a2);
    geoparquet::lemma_text_column(columns[3], "institution_type_code"@, a3);
    geoparquet::lemma_text_column(columns[4], "line_name"@, a4);
    geoparquet::lemma_text_column(columns[5], "operator"@, a5);
    assert(columns[0].text_at(i) == Some(a0[i]));
    assert(columns[1].text_at(i) == Some(a1[i]));
    assert(columns[2].text_at(i) == Some(a2[i]));
    assert(columns[3].text_at(i) == Some(a3[i]));
    assert(columns[4].text_at(i) == Some(a4[i]));
    assert(columns[5].text_at(i) == Some(a5[i]));
}

/// The file of stations has three columns more, for the name of a station and
/// its codes. It is made where every row has a name, and only there.
pub proof fn law_columns_tell_of_stations(columns: Seq<Column>, rows: Seq<Row>, i: int)
    requires
        station_columns_hold(columns, rows_view(rows)),
        first_nameless(rows_view(rows)) == rows.len(),
        0 <= i < rows.len(),
    ensures
        columns.len() == 9,
        shared_columns_hold(columns, rows_view(rows)),
        forall|k: int| 6 <= k < 9 ==> (#[trigger] columns[k]).height() == rows.len(),
        rows[i].station_name is Some,
        columns[6].name@ == "station_name"@ && columns[6].text_at(i) == text::optional_view(
            rows[i].station_name,
        ),
        columns[7].name@ == "station_code"@ && columns[7].text_at(i) == text::optional_view(
            rows[i].station_code,
        ),
        columns[8].name@ == "station_group_code"@ && columns[8].text_at(i) == text::optional_view(
            rows[i].station_group_code,
        ),
{
    let all = rows_view(rows);
    let n = all.len();
    let a6 = Seq::new(n, |i: int| all[i].station_name->0);
    let a7 = Seq::new(n, |i: int| all[i].station_code);
    let a8 = Seq::new(n, |i: int| all[i].station_group_code);
    law_the_first_nameless_row_is_named(all);
    geoparquet::lemma_text_column(columns[6], "station_name"@, a6);
    geoparquet::lemma_optional_column(columns[7], "station_code"@, a7);
    geoparquet::lemma_optional_column(columns[8], "station_group_code"@, a8);
    assert(all[i].station_name is Some);
    assert(columns[6].text_at(i) == Some(a6[i]));
}

/// The row that is refused as no station has no station name, and every row
/// before it has one.
pub proof fn law_the_first_nameless_row_is_named(rows: Seq<RowView>)
    ensures
        0 <= first_nameless(rows) <= rows.len(),
        first_nameless(rows) < rows.len() ==> rows[first_nameless(rows)].station_name is None,
        forall|i: int|
            #![trigger rows[i]]
            0 <= i < first_nameless(rows) ==> rows[i].station_name is Some,
    decreases rows.len(),
{
    if rows.len() > 0 && rows[0].station_name is Some {
        let rest = rows.drop_first();
        law_the_first_nameless_row_is_named(rest);
        assert(forall|i: int|
            #![trigger rows[i]]
            1 <= i < rows.len() ==> rows[i] == rest[i - 1]);
    }
}

/// Sections and stations are told apart by the end of an entry's name, and a
/// part has its name to itself.
pub proof fn law_parts_have_their_own_entries(name: Seq<char>)
    ensures
        Part::named(name) == Some(Part::Sections) <==> name == "sections"@,
        Part::named(name) == Some(Part::Stations) <==> name == "stations"@,
        Part::Sections.spec_rule().suffix@ == "_RailroadSection.geojson"@,
        Part::Stations.spec_rule().suffix@ == "_Station.geojson"@,
        forall|p: Part| (#[trigger] p.spec_rule()).with is None && p.spec_rule().without is None,
        spec_metadata_rule().suffix@ == ".xml"@,
        spec_metadata_rule().with is Some && spec_metadata_rule().with->0@ == "KS-META-"@,
{
    reveal_strlit("sections");
    reveal_strlit("stations");
    assert("sections"@[1] == 'e' && "stations"@[1] == 't');
}

/// Moving a section or a station moves its line, point by point, and leaves what
/// is said of it as it was.
pub proof fn law_lines_are_moved<F: Fn(&Vec<Coord>) -> Option<Vec<Coord>>>(
    transform: F,
    g: spec_fn(Coord) -> Coord,
    before: Row,
    after: Row,
)
    requires
        transform::moves_by(transform, g),
        row_moved(transform, before, after),
    ensures
        after.railway_class_code@ == before.railway_class_code@,
        after.railway_class@ == before.railway_class@,
        after.institution_type_code@ == before.institution_type_code@,
        after.institution_type@ == before.institution_type@,
        after.line_name@ == before.line_name@,
        after.operator@ == before.operator@,
        text::optional_view(after.station_name) == text::optional_view(before.station_name),
        text::optional_view(after.station_code) == text::optional_view(before.station_code),
        text::optional_view(after.station_group_code) == text::optional_view(
            before.station_group_code,
        ),
        after.geometry@ == before.geometry@.map_values(g),
{
    transform::law_lines_are_moved_point_by_point(transform, g, before.geometry, after.geometry@);
}

/// A feature that cannot be read is refused for the first thing that is wrong
/// with it: its geometry, then its codes, first those that are missing and then
/// those that are unknown, then the names of its line and of its operator.
pub proof fn law_refusals_say_what_is_wrong(f: FeatureView)
    ensures
        f.geometry is None ==> row_in(f) == Err::<RowView, N02Fault>(N02Fault::MissingGeometry),
        f.geometry is Some && !(f.geometry->0 is Line) ==> row_in(f) == Err::<RowView, N02Fault>(
            N02Fault::UnexpectedGeometry,
        ),
        f.geometry is Some && f.geometry->0 is Line && (exists|j: int|
            0 <= j < f.geometry->0->Line_0.len() && (#[trigger] f.geometry->0->Line_0[j]).len() < 2)
            ==> row_in(f) == Err::<RowView, N02Fault>(N02Fault::ShortPosition),
        line_in(f.geometry) is Ok && f.text("N02_001"@) is None ==> row_in(f) == Err::<
            RowView,
            N02Fault,
        >(N02Fault::Missing(Property::RailwayClass)),
        line_in(f.geometry) is Ok && f.text("N02_001"@) is Some && f.text("N02_002"@) is None
            ==> row_in(f) == Err::<RowView, N02Fault>(N02Fault::Missing(Property::InstitutionType)),
        line_in(f.geometry) is Ok && f.text("N02_001"@) is Some && f.text("N02_002"@) is Some
            && name_in(railway_class_list(), f.text("N02_001"@)->0) is None ==> row_in(f) == Err::<
            RowView,
            N02Fault,
        >(N02Fault::UnknownRailwayClass(f.text("N02_001"@)->0)),
        line_in(f.geometry) is Ok && f.text("N02_001"@) is Some && f.text("N02_002"@) is Some
            && name_in(railway_class_list(), f.text("N02_001"@)->0) is Some && name_in(
            institution_type_list(),
            f.text("N02_002"@)->0,
        ) is None ==> row_in(f) == Err::<RowView, N02Fault>(
            N02Fault::UnknownInstitutionType(f.text("N02_002"@)->0),
        ),
{
    if f.geometry is Some && f.geometry->0 is Line {
        let line = f.geometry->0->Line_0;
        if exists|j: int| 0 <= j < line.len() && (#[trigger] line[j]).len() < 2 {
            let j = choose|j: int| 0 <= j < line.len() && (#[trigger] line[j]).len() < 2;
            assert(!features::line_complete(line));
        }
    }
}

} // verus!
