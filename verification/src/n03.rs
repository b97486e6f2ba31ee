//! Administrative areas of the national land numerical information (N03).
use crate::archive;
use crate::archive::{read_utf8_by, NameRule, ZipTextError, ZipTextFault};
use crate::features;
use crate::features::{
    extract_epsg, feature_count, feature_geometry, feature_text, raw_polygons, read_collection,
    rings_polygon, CollectionError, CollectionFault, CollectionView, FeatureView, RawGeometry,
    RawView,
};
use crate::geo;
use crate::geo::{
    bounds_of_polygons, copy_polygons, Bounds, Coord, Polygon, PolygonView, Shape, ShapeView,
};
use crate::geoparquet;
use crate::geoparquet::{
    table_of_shapes, utf8_column, utf8_nullable_column, Column, Provenance, Table, TableError,
};
use crate::text;
use crate::text::copy_optional;
use crate::transform;
use crate::transform::{transform_polygons, TransformError};
use vstd::prelude::*;

verus! {

/// An administrative area.
#[derive(Debug, PartialEq)]
pub struct Row {
    pub pref_name: String,
    pub subprefecture_name: Option<String>,
    pub county_name: Option<String>,
    pub city_name: Option<String>,
    pub ward_name: Option<String>,
    /// The code of the area. Other sources of areas have identifiers of another
    /// form, so readers take it as it is.
    pub admin_id: String,
    pub geometry: Vec<Polygon>,
}

/// The view of a [`Row`].
#[verifier::ext_equal]
pub struct RowView {
    pub pref_name: Seq<char>,
    pub subprefecture_name: Option<Seq<char>>,
    pub county_name: Option<Seq<char>>,
    pub city_name: Option<Seq<char>>,
    pub ward_name: Option<Seq<char>>,
    pub admin_id: Seq<char>,
    pub geometry: Seq<PolygonView>,
}

impl View for Row {
    type V = RowView;

    open spec fn view(&self) -> RowView {
        RowView {
            pref_name: self.pref_name@,
            subprefecture_name: text::optional_view(self.subprefecture_name),
            county_name: text::optional_view(self.county_name),
            city_name: text::optional_view(self.city_name),
            ward_name: text::optional_view(self.ward_name),
            admin_id: self.admin_id@,
            geometry: geo::polygons_of(self.geometry@),
        }
    }
}

pub open spec fn rows_view(rows: Seq<Row>) -> Seq<RowView> {
    Seq::new(rows.len(), |i: int| rows[i]@)
}

/// Why the data could not be read.
#[derive(Debug, PartialEq)]
pub enum N03Error {
    Collection(CollectionError),
    MissingGeometry,
    /// A position has fewer than two coordinates.
    ShortPosition,
    UnexpectedGeometry,
    MissingPrefName,
    MissingAdminId,
}

/// The view of an [`N03Error`].
pub enum N03Fault {
    Collection(CollectionFault),
    MissingGeometry,
    ShortPosition,
    UnexpectedGeometry,
    MissingPrefName,
    MissingAdminId,
}

impl View for N03Error {
    type V = N03Fault;

    open spec fn view(&self) -> N03Fault {
        match self {
            N03Error::Collection(e) => N03Fault::Collection(e@),
            N03Error::MissingGeometry => N03Fault::MissingGeometry,
            N03Error::ShortPosition => N03Fault::ShortPosition,
            N03Error::UnexpectedGeometry => N03Fault::UnexpectedGeometry,
            N03Error::MissingPrefName => N03Fault::MissingPrefName,
            N03Error::MissingAdminId => N03Fault::MissingAdminId,
        }
    }
}

impl N03Fault {
    pub open spec fn spec_text(self) -> Seq<char> {
        match self {
            N03Fault::Collection(e) => e.spec_text(),
            N03Fault::MissingGeometry => "feature is missing geometry"@,
            N03Fault::ShortPosition => "a position has fewer than two coordinates"@,
            N03Fault::UnexpectedGeometry => "unexpected geometry type"@,
            N03Fault::MissingPrefName => "missing N03_001 (pref name)"@,
            N03Fault::MissingAdminId => "missing N03_007 (admin code)"@,
        }
    }
}

impl N03Error {
    pub fn to_string(&self) -> (text: String)
        ensures
            text@ == self@.spec_text(),
    {
        match self {
            N03Error::Collection(e) => e.to_string(),
            N03Error::MissingGeometry => "feature is missing geometry".to_string(),
            N03Error::ShortPosition => "a position has fewer than two coordinates".to_string(),
            N03Error::UnexpectedGeometry => "unexpected geometry type".to_string(),
            N03Error::MissingPrefName => "missing N03_001 (pref name)".to_string(),
            N03Error::MissingAdminId => "missing N03_007 (admin code)".to_string(),
        }
    }
}

/// The polygons of a feature; a single polygon is a list of one.
pub open spec fn polygons_in(geometry: Option<RawView>) -> Result<Seq<PolygonView>, N03Fault> {
    match geometry {
        None => Err(N03Fault::MissingGeometry),
        Some(RawView::MultiPolygon(polygons)) => if features::polygons_complete(polygons) {
            Ok(features::polygons_from(polygons))
        } else {
            Err(N03Fault::ShortPosition)
        },
        Some(RawView::Polygon(rings)) => if features::rings_complete(rings) {
            Ok(seq![features::polygon_from(rings)])
        } else {
            Err(N03Fault::ShortPosition)
        },
        Some(_) => Err(N03Fault::UnexpectedGeometry),
    }
}

/// What a feature says.
pub open spec fn row_in(f: FeatureView) -> Result<RowView, N03Fault> {
    match polygons_in(f.geometry) {
        Err(e) => Err(e),
        Ok(geometry) => match (f.text("N03_001"@), f.text("N03_007"@)) {
            (None, _) => Err(N03Fault::MissingPrefName),
            (_, None) => Err(N03Fault::MissingAdminId),
            (Some(pref_name), Some(admin_id)) => Ok(
                RowView {
                    pref_name,
                    subprefecture_name: f.text("N03_002"@),
                    county_name: f.text("N03_003"@),
                    city_name: f.text("N03_004"@),
                    ward_name: f.text("N03_005"@),
                    admin_id,
                    geometry,
                },
            ),
        },
    }
}

/// What features say, up to the first that cannot be read.
pub open spec fn rows_in(features: Seq<FeatureView>) -> Result<Seq<RowView>, N03Fault>
    decreases features.len(),
{
    if features.len() == 0 {
        Ok(Seq::empty())
    } else {
        match rows_in(features.drop_last()) {
            Err(e) => Err(e),
            Ok(rows) => match row_in(features.last()) {
                Err(e) => Err(e),
                Ok(row) => Ok(rows.push(row)),
            },
        }
    }
}

/// The bounds of rows together.
pub open spec fn rows_bounds(rows: Seq<RowView>) -> Bounds
    decreases rows.len(),
{
    if rows.len() == 0 {
        Bounds::spec_nothing()
    } else {
        rows_bounds(rows.drop_last()).spec_union(geo::polygons_bounds(rows.last().geometry))
    }
}

/// Rows in the coordinates of their source.
#[derive(Debug, PartialEq)]
pub struct Source {
    /// The EPSG code of the coordinates.
    pub epsg: u32,
    /// The bounds of all rows.
    pub bounds: Bounds,
    pub rows: Vec<Row>,
}

/// What a collection says: its reference system and its rows.
pub open spec fn source_in(c: CollectionView) -> Result<(u32, Seq<RowView>), N03Fault> {
    match features::epsg_of(c) {
        Err(e) => Err(N03Fault::Collection(e)),
        Ok(epsg) => match rows_in(c.features) {
            Err(e) => Err(e),
            Ok(rows) => Ok((epsg, rows)),
        },
    }
}

proof fn lemma_error_stays(all: Seq<FeatureView>, n: int)
    requires
        0 <= n <= all.len(),
        rows_in(all.take(n)) is Err,
    ensures
        rows_in(all) == rows_in(all.take(n)),
    decreases all.len(),
{
    if n == all.len() {
        assert(all.take(n) == all);
    } else {
        assert(all.drop_last().take(n) == all.take(n));
        lemma_error_stays(all.drop_last(), n);
    }
}

fn read_polygons(geometry: Option<RawGeometry>) -> (r: Result<Vec<Polygon>, N03Error>)
    ensures
        ({
            let view = match geometry {
                Some(g) => Some(g@),
                None => None,
            };
            match r {
                Ok(p) => polygons_in(view) == Ok::<Seq<PolygonView>, N03Fault>(
                    geo::polygons_of(p@),
                ),
                Err(e) => polygons_in(view) == Err::<Seq<PolygonView>, N03Fault>(e@),
            }
        }),
{
    match geometry {
        None => Err(N03Error::MissingGeometry),
        Some(RawGeometry::MultiPolygon(polygons)) => match raw_polygons(&polygons) {
            Some(p) => Ok(p),
            None => Err(N03Error::ShortPosition),
        },
        Some(RawGeometry::Polygon(rings)) => match rings_polygon(&rings) {
            Some(p) => {
                let ghost view = p@;
                let mut list: Vec<Polygon> = Vec::new();
                list.push(p);
                assert(geo::polygons_of(list@) =~= seq![view]);
                Ok(list)
            },
            None => Err(N03Error::ShortPosition),
        },
        Some(_) => Err(N03Error::UnexpectedGeometry),
    }
}

fn read_row(fc: &geojson::FeatureCollection, i: usize) -> (r: Result<Row, N03Error>)
    requires
        i < features::collection_of(*fc).features.len(),
    ensures
        match r {
            Ok(row) => row_in(features::collection_of(*fc).features[i as int]) == Ok::<
                RowView,
                N03Fault,
            >(row@),
            Err(e) => row_in(features::collection_of(*fc).features[i as int]) == Err::<
                RowView,
                N03Fault,
            >(e@),
        },
{
    let geometry = match read_polygons(feature_geometry(fc, i)) {
        Ok(p) => p,
        Err(e) => {
            return Err(e);
        },
    };
    let pref_name = match feature_text(fc, i, "N03_001") {
        Some(s) => s,
        None => {
            return Err(N03Error::MissingPrefName);
        },
    };
    let admin_id = match feature_text(fc, i, "N03_007") {
        Some(s) => s,
        None => {
            return Err(N03Error::MissingAdminId);
        },
    };
    let row = Row {
        pref_name,
        subprefecture_name: feature_text(fc, i, "N03_002"),
        county_name: feature_text(fc, i, "N03_003"),
        city_name: feature_text(fc, i, "N03_004"),
        ward_name: feature_text(fc, i, "N03_005"),
        admin_id,
        geometry,
    };
    Ok(row)
}

/// Reads the rows of a collection.
pub fn parse_collection(fc: &geojson::FeatureCollection) -> (r: Result<Source, N03Error>)
    ensures
        match r {
            Ok(s) => source_in(features::collection_of(*fc)) == Ok::<
                (u32, Seq<RowView>),
                N03Fault,
            >((s.epsg, rows_view(s.rows@))) && s.bounds == rows_bounds(rows_view(s.rows@)),
            Err(e) => source_in(features::collection_of(*fc)) == Err::<
                (u32, Seq<RowView>),
                N03Fault,
            >(e@),
        },
{
    let epsg: u32 = match extract_epsg(fc) {
        Ok(code) => code,
        Err(e) => {
            return Err(N03Error::Collection(e));
        },
    };
    let ghost all = features::collection_of(*fc).features;
    let n: usize = feature_count(fc);
    let mut rows: Vec<Row> = Vec::new();
    let mut bounds = Bounds::nothing();
    let mut i: usize = 0;
    assert(all.take(0) == Seq::<FeatureView>::empty());
    assert(rows_view(rows@) =~= Seq::<RowView>::empty());
    while i < n
        invariant
            i <= n == all.len(),
            all == features::collection_of(*fc).features,
            features::epsg_of(features::collection_of(*fc)) == Ok::<u32, CollectionFault>(epsg),
            rows_in(all.take(i as int)) == Ok::<Seq<RowView>, N03Fault>(rows_view(rows@)),
            bounds == rows_bounds(rows_view(rows@)),
        decreases n - i,
    {
        let ghost before = rows@;
        assert(all.take(i + 1).drop_last() == all.take(i as int));
        assert(all.take(i + 1).last() == all[i as int]);
        match read_row(fc, i) {
            Ok(row) => {
                let ghost view = row@;
                bounds = bounds.union(&bounds_of_polygons(&row.geometry));
                rows.push(row);
                assert(rows_view(rows@) =~= rows_view(before).push(view));
                assert(rows_view(rows@).drop_last() =~= rows_view(before));
            },
            Err(e) => {
                proof {
                    lemma_error_stays(all, i + 1);
                }
                return Err(e);
            },
        }
        i = i + 1;
    }
    assert(all.take(i as int) == all);
    Ok(Source { epsg, bounds, rows })
}

/// What a GeoJSON text says.
pub open spec fn source_in_text(text: Seq<char>) -> Result<(u32, Seq<RowView>), N03Fault> {
    match features::collection_in(text) {
        Err(e) => Err(N03Fault::Collection(e)),
        Ok(c) => source_in(c),
    }
}

/// Reads the rows of a GeoJSON text.
pub fn parse_geojson(geojson_str: &str) -> (r: Result<Source, N03Error>)
    ensures
        match r {
            Ok(s) => source_in_text(geojson_str@) == Ok::<(u32, Seq<RowView>), N03Fault>(
                (s.epsg, rows_view(s.rows@)),
            ) && s.bounds == rows_bounds(rows_view(s.rows@)),
            Err(e) => source_in_text(geojson_str@) == Err::<(u32, Seq<RowView>), N03Fault>(e@),
        },
{
    match read_collection(geojson_str) {
        Ok(fc) => parse_collection(&fc),
        Err(e) => Err(N03Error::Collection(e)),
    }
}

/// Why an archive could not be read.
#[derive(Debug, PartialEq)]
pub enum N03ZipError {
    Text(ZipTextError),
    Rows(N03Error),
}

/// The view of an [`N03ZipError`].
pub enum N03ZipFault {
    Text(ZipTextFault),
    Rows(N03Fault),
}

impl View for N03ZipError {
    type V = N03ZipFault;

    open spec fn view(&self) -> N03ZipFault {
        match self {
            N03ZipError::Text(e) => N03ZipFault::Text(e@),
            N03ZipError::Rows(e) => N03ZipFault::Rows(e@),
        }
    }
}

impl N03ZipError {
    pub fn to_string(&self) -> (text: String)
        ensures
            text@ == (match self@ {
                N03ZipFault::Text(e) => e.spec_text("N03 geojson"@),
                N03ZipFault::Rows(e) => e.spec_text(),
            }),
    {
        match self {
            N03ZipError::Text(e) => e.to_text("N03 geojson"),
            N03ZipError::Rows(e) => e.to_string(),
        }
    }
}

/// The entry with the areas in full. Archives of the whole country also hold
/// a version dissolved by prefecture, which is not meant.
pub open spec fn spec_areas_rule() -> NameRule {
    NameRule { suffix: ".geojson", with: None, without: Some("_prefecture") }
}

/// What an archive says.
pub open spec fn archive_in(zip: Seq<u8>) -> Result<(u32, Seq<RowView>), N03ZipFault> {
    match archive::utf8_by_rule(zip, spec_areas_rule()) {
        Err(e) => Err(N03ZipFault::Text(e)),
        Ok(text) => match source_in_text(text) {
            Err(e) => Err(N03ZipFault::Rows(e)),
            Ok(source) => Ok(source),
        },
    }
}

/// Reads the rows from a distributed archive.
pub fn parse_zip(zip: &Vec<u8>) -> (r: Result<Source, N03ZipError>)
    ensures
        match r {
            Ok(s) => archive_in(zip@) == Ok::<(u32, Seq<RowView>), N03ZipFault>(
                (s.epsg, rows_view(s.rows@)),
            ) && s.bounds == rows_bounds(rows_view(s.rows@)),
            Err(e) => archive_in(zip@) == Err::<(u32, Seq<RowView>), N03ZipFault>(e@),
        },
{
    let rule = NameRule { suffix: ".geojson", with: None, without: Some("_prefecture") };
    match read_utf8_by(zip, rule) {
        Ok(text) => match parse_geojson(text.as_str()) {
            Ok(s) => Ok(s),
            Err(e) => Err(N03ZipError::Rows(e)),
        },
        Err(e) => Err(N03ZipError::Text(e)),
    }
}

/// The columns hold what the rows say.
pub open spec fn columns_hold(columns: Seq<Column>, all: Seq<RowView>) -> bool {
    let n = all.len();
    &&& columns.len() == 6
    &&& columns[0].holds_texts("pref_name"@, Seq::new(n, |i: int| all[i].pref_name))
    &&& columns[1].holds_optional_texts(
        "subprefecture_name"@,
        Seq::new(n, |i: int| all[i].subprefecture_name),
    )
    &&& columns[2].holds_optional_texts(
        "county_name"@,
        Seq::new(n, |i: int| all[i].county_name),
    )
    &&& columns[3].holds_optional_texts(
        "city_name"@,
        Seq::new(n, |i: int| all[i].city_name),
    )
    &&& columns[4].holds_optional_texts(
        "ward_name"@,
        Seq::new(n, |i: int| all[i].ward_name),
    )
    &&& columns[5].holds_texts("admin_id"@, Seq::new(n, |i: int| all[i].admin_id))
}

/// The columns of a file of rows.
pub fn columns_of(rows: &Vec<Row>) -> (columns: Vec<Column>)
    ensures
        columns_hold(columns@, rows_view(rows@)),
{
    let ghost all = rows_view(rows@);
    let mut pref: Vec<String> = Vec::new();
    let mut subprefecture: Vec<Option<String>> = Vec::new();
    let mut county: Vec<Option<String>> = Vec::new();
    let mut city: Vec<Option<String>> = Vec::new();
    let mut ward: Vec<Option<String>> = Vec::new();
    let mut id: Vec<String> = Vec::new();
    let mut i: usize = 0;
    while i < rows.len()
        invariant
            i <= rows@.len(),
            all == rows_view(rows@),
            pref@.len() == i,
            subprefecture@.len() == i,
            county@.len() == i,
            city@.len() == i,
            ward@.len() == i,
            id@.len() == i,
            forall|k: int| 0 <= k < i ==> (#[trigger] pref@[k])@ == all[k].pref_name,
            forall|k: int|
                0 <= k < i ==> text::optional_view(#[trigger] subprefecture@[k])
                    == all[k].subprefecture_name,
            forall|k: int| 0 <= k < i ==> text::optional_view(#[trigger] county@[k]) == all[k].county_name,
            forall|k: int| 0 <= k < i ==> text::optional_view(#[trigger] city@[k]) == all[k].city_name,
            forall|k: int| 0 <= k < i ==> text::optional_view(#[trigger] ward@[k]) == all[k].ward_name,
            forall|k: int| 0 <= k < i ==> (#[trigger] id@[k])@ == all[k].admin_id,
        decreases rows@.len() - i,
    {
        let row = &rows[i];
        pref.push(row.pref_name.clone());
        subprefecture.push(copy_optional(&row.subprefecture_name));
        county.push(copy_optional(&row.county_name));
        city.push(copy_optional(&row.city_name));
        ward.push(copy_optional(&row.ward_name));
        id.push(row.admin_id.clone());
        i = i + 1;
    }
    proof {
        let n = all.len();
        assert(text::texts(pref@) =~= Seq::new(n, |i: int| all[i].pref_name));
        assert(geoparquet::optional_texts(subprefecture@) =~= Seq::new(
            n,
            |i: int| all[i].subprefecture_name,
        ));
        assert(geoparquet::optional_texts(county@) =~= Seq::new(n, |i: int| all[i].county_name));
        assert(geoparquet::optional_texts(city@) =~= Seq::new(n, |i: int| all[i].city_name));
        assert(geoparquet::optional_texts(ward@) =~= Seq::new(n, |i: int| all[i].ward_name));
        assert(text::texts(id@) =~= Seq::new(n, |i: int| all[i].admin_id));
    }
    let mut columns: Vec<Column> = Vec::new();
    columns.push(utf8_column("pref_name", pref));
    columns.push(utf8_nullable_column("subprefecture_name", subprefecture));
    columns.push(utf8_nullable_column("county_name", county));
    columns.push(utf8_nullable_column("city_name", city));
    columns.push(utf8_nullable_column("ward_name", ward));
    columns.push(utf8_column("admin_id", id));
    columns
}

// ---------------------------------------------------------------------------
// Reference systems
// ---------------------------------------------------------------------------

/// A row was moved: its geometry, and nothing else.
pub open spec fn row_moved<F: Fn(&Vec<Coord>) -> Option<Vec<Coord>>>(
    transform: F,
    before: Row,
    after: Row,
) -> bool {
    &&& after@ == (RowView { geometry: after@.geometry, ..before@ })
    &&& transform::polygons_moved(transform, before.geometry@, after.geometry@)
}

impl Source {
    /// The rows in WGS84. `transform` moves the points of a line there from the
    /// reference system of the source.
    pub fn to_wgs84<F: Fn(&Vec<Coord>) -> Option<Vec<Coord>>>(self, transform: F) -> (r: Result<
        Vec<Row>,
        TransformError,
    >)
        requires
            transform::total(transform),
        ensures
            match r {
                Ok(rows) => {
                    &&& rows@.len() == self.rows@.len()
                    &&& forall|i: int|
                        #![trigger rows@[i]]
                        0 <= i < rows@.len() ==> row_moved(transform, self.rows@[i], rows@[i])
                },
                Err(_) => exists|i: int|
                    0 <= i < self.rows@.len() && transform::polygons_refused(
                        transform,
                        (#[trigger] self.rows@[i]).geometry@,
                    ),
            },
    {
        let mut rows: Vec<Row> = Vec::new();
        let mut i: usize = 0;
        while i < self.rows.len()
            invariant
                i <= self.rows@.len(),
                transform::total(transform),
                rows@.len() == i,
                forall|j: int|
                    #![trigger rows@[j]]
                    0 <= j < i ==> row_moved(transform, self.rows@[j], rows@[j]),
            decreases self.rows@.len() - i,
        {
            let row = &self.rows[i];
            let geometry = match transform_polygons(&row.geometry, &transform) {
                Ok(geometry) => geometry,
                Err(e) => {
                    return Err(e);
                },
            };
            rows.push(
                Row {
                    pref_name: row.pref_name.clone(),
                    subprefecture_name: copy_optional(&row.subprefecture_name),
                    county_name: copy_optional(&row.county_name),
                    city_name: copy_optional(&row.city_name),
                    ward_name: copy_optional(&row.ward_name),
                    admin_id: row.admin_id.clone(),
                    geometry,
                },
            );
            i = i + 1;
        }
        Ok(rows)
    }
}

/// The geometries of a file of rows.
pub open spec fn shapes_of(all: Seq<RowView>) -> Seq<ShapeView> {
    Seq::new(all.len(), |i: int| ShapeView::MultiPolygon(all[i].geometry))
}

/// The file that rows in WGS84 go into.
pub fn table_of(rows: &Vec<Row>) -> (r: Result<Table, TableError>)
    ensures
        match r {
            Ok(t) => columns_hold(t.columns@, rows_view(rows@)) && t.is_of(
                shapes_of(rows_view(rows@)),
                "MultiPolygon"@,
                (Provenance { via: None, vintage: None }),
            ),
            Err(e) => e == TableError::Geometry && geoparquet::unencodable(
                shapes_of(rows_view(rows@)),
            ),
        },
{
    let ghost want = shapes_of(rows_view(rows@));
    let mut shapes: Vec<Shape> = Vec::new();
    let mut i: usize = 0;
    while i < rows.len()
        invariant
            i <= rows@.len(),
            want == shapes_of(rows_view(rows@)),
            shapes@.len() == i,
            forall|j: int| 0 <= j < i ==> (#[trigger] shapes@[j])@ == want[j],
        decreases rows@.len() - i,
    {
        shapes.push(Shape::MultiPolygon(copy_polygons(&rows[i].geometry)));
        i = i + 1;
    }
    assert(geoparquet::shape_views(shapes@) =~= want);
    let provenance = Provenance { via: None, vintage: None };
    table_of_shapes(columns_of(rows), &shapes, "MultiPolygon", &provenance)
}

/// Rows are read one by one, in order: all of them are there where each feature
/// can be read, and otherwise the first that cannot says why.
pub proof fn law_features_are_read_one_by_one(features: Seq<FeatureView>)
    ensures
        rows_in(features) is Ok <==> forall|i: int|
            #![trigger features[i]]
            0 <= i < features.len() ==> row_in(features[i]) is Ok,
        rows_in(features) is Ok ==> rows_in(features)->Ok_0.len() == features.len(),
        rows_in(features) is Ok ==> forall|i: int|
            #![trigger features[i]]
            0 <= i < features.len() ==> row_in(features[i]) == Ok::<RowView, N03Fault>(
                rows_in(features)->Ok_0[i],
            ),
        rows_in(features) is Err ==> exists|i: int|
            #![trigger features[i]]
            0 <= i < features.len() && row_in(features[i]) == Err::<RowView, N03Fault>(
                rows_in(features)->Err_0,
            ) && forall|j: int|
                #![trigger features[j]]
                0 <= j < i ==> row_in(features[j]) is Ok,
    decreases features.len(),
{
    if features.len() > 0 {
        let rest = features.drop_last();
        let last = features.len() - 1;
        law_features_are_read_one_by_one(rest);
        assert(forall|i: int|
            #![trigger features[i]]
            0 <= i < last ==> features[i] == rest[i]);
        assert(forall|i: int|
            #![trigger rest[i]]
            0 <= i < last ==> features[i] == rest[i]);
        assert(features[last] == features.last());
        if rows_in(rest) is Err {
            let i = choose|i: int|
                #![trigger rest[i]]
                0 <= i < rest.len() && row_in(rest[i]) == Err::<RowView, N03Fault>(
                    rows_in(rest)->Err_0,
                ) && forall|j: int|
                    #![trigger rest[j]]
                    0 <= j < i ==> row_in(rest[j]) is Ok;
            assert(row_in(features[i]) is Err);
            assert forall|j: int|
                #![trigger features[j]]
                0 <= j < i implies row_in(features[j]) is Ok by {
                assert(row_in(rest[j]) is Ok);
            }
        } else if row_in(features.last()) is Err {
            assert forall|j: int|
                #![trigger features[j]]
                0 <= j < last implies row_in(features[j]) is Ok by {
                assert(row_in(rest[j]) is Ok);
            }
        } else {
            assert forall|i: int|
                #![trigger features[i]]
                0 <= i < features.len() implies row_in(features[i]) == Ok::<RowView, N03Fault>(
                rows_in(features)->Ok_0[i],
            ) by {
                if i < last {
                    assert(row_in(rest[i]) == Ok::<RowView, N03Fault>(rows_in(rest)->Ok_0[i]));
                }
            }
        }
    }
}

/// Of each feature that is read, the row has the name of the prefecture from
/// `N03_001`, of the subprefecture from `N03_002`, of the county from
/// `N03_003`, of the city from `N03_004` and of the ward from `N03_005`, and the
/// code from `N03_007`. There is one row for each feature, in order.
pub proof fn law_names_come_from_their_properties(
    text: Seq<char>,
    c: CollectionView,
    s: Source,
    i: int,
)
    requires
        features::collection_in(text) == Ok::<CollectionView, CollectionFault>(c),
        source_in_text(text) == Ok::<(u32, Seq<RowView>), N03Fault>((s.epsg, rows_view(s.rows@))),
        0 <= i < c.features.len(),
    ensures
        s.rows@.len() == c.features.len(),
        c.features[i].text("N03_001"@) == Some(s.rows@[i].pref_name@),
        c.features[i].text("N03_002"@) == text::optional_view(s.rows@[i].subprefecture_name),
        c.features[i].text("N03_003"@) == text::optional_view(s.rows@[i].county_name),
        c.features[i].text("N03_004"@) == text::optional_view(s.rows@[i].city_name),
        c.features[i].text("N03_005"@) == text::optional_view(s.rows@[i].ward_name),
        c.features[i].text("N03_007"@) == Some(s.rows@[i].admin_id@),
        features::epsg_of(c) == Ok::<u32, CollectionFault>(s.epsg),
{
    law_features_are_read_one_by_one(c.features);
    assert(rows_view(s.rows@).len() == s.rows@.len());
    assert(row_in(c.features[i]) == Ok::<RowView, N03Fault>(rows_view(s.rows@)[i]));
    assert(rows_view(s.rows@)[i] == s.rows@[i]@);
}

/// A feature is read where it has the name of its prefecture and its code, and
/// polygons whose positions have two numbers or more; nothing else is asked.
pub proof fn law_features_are_read_where_complete(f: FeatureView)
    ensures
        row_in(f) is Ok <==> {
            &&& f.text("N03_001"@) is Some
            &&& f.text("N03_007"@) is Some
            &&& f.geometry is Some
            &&& match f.geometry->0 {
                RawView::MultiPolygon(m) => features::polygons_complete(m),
                RawView::Polygon(p) => features::rings_complete(p),
                _ => false,
            }
        },
{
}

/// The polygons of a row are those of its feature, as many and in order; a
/// single polygon is a list of one. Each ring goes through its positions.
pub proof fn law_areas_keep_their_shape(f: FeatureView, k: int, r: int)
    requires
        row_in(f) is Ok,
    ensures
        f.geometry->0 is MultiPolygon && 0 <= k < f.geometry->0->MultiPolygon_0.len() && 0 <= r
            < f.geometry->0->MultiPolygon_0[k].len() ==> {
            let rings = f.geometry->0->MultiPolygon_0[k];
            let p = row_in(f)->Ok_0.geometry[k];
            &&& row_in(f)->Ok_0.geometry.len() == f.geometry->0->MultiPolygon_0.len()
            &&& p.interiors.len() == rings.len() - 1
            &&& r == 0 ==> features::goes_around(p.exterior, rings[0])
            &&& r > 0 ==> features::goes_around(p.interiors[r - 1], rings[r])
        },
        f.geometry->0 is Polygon && 0 <= r < f.geometry->0->Polygon_0.len() ==> {
            let rings = f.geometry->0->Polygon_0;
            let p = row_in(f)->Ok_0.geometry[0];
            &&& row_in(f)->Ok_0.geometry.len() == 1
            &&& p.interiors.len() == rings.len() - 1
            &&& r == 0 ==> features::goes_around(p.exterior, rings[0])
            &&& r > 0 ==> features::goes_around(p.interiors[r - 1], rings[r])
        },
{
    match f.geometry->0 {
        RawView::MultiPolygon(m) => {
            if 0 <= k < m.len() && 0 <= r < m[k].len() {
                features::law_polygons_stay_in_order(m, k, r);
            }
        },
        RawView::Polygon(p) => {
            if 0 <= r < p.len() {
                features::law_polygons_follow_their_rings(p, r);
            }
        },
        _ => {},
    }
}

/// The bounds of rows are those of their geometries together.
pub proof fn law_extent_is_that_of_the_areas(rows: Seq<RowView>)
    ensures
        rows_bounds(rows) == geoparquet::shapes_bounds(shapes_of(rows)),
        shapes_of(rows).len() == rows.len(),
        forall|i: int|
            #![trigger shapes_of(rows)[i]]
            0 <= i < rows.len() ==> shapes_of(rows)[i] == ShapeView::MultiPolygon(
                rows[i].geometry,
            ),
    decreases rows.len(),
{
    if rows.len() > 0 {
        law_extent_is_that_of_the_areas(rows.drop_last());
        assert(shapes_of(rows).drop_last() =~= shapes_of(rows.drop_last()));
    }
}

/// The bounds of rows hold every vertex of every area, and each side is reached
/// by one of them, where all are finite.
pub proof fn law_extent_is_tight(rows: Seq<RowView>, vertex: Coord)
    requires
        geo::finite_points(|c: Coord| geoparquet::on_shapes(shapes_of(rows), c)),
        geoparquet::on_shapes(shapes_of(rows), vertex),
    ensures
        geo::tight(rows_bounds(rows), |c: Coord| geoparquet::on_shapes(shapes_of(rows), c)),
{
    law_extent_is_that_of_the_areas(rows);
    geoparquet::law_file_bounds_are_tight(shapes_of(rows), vertex);
}

/// A file of areas has one row for each, in order, and its columns say under
/// their names what the areas say.
pub proof fn law_columns_tell_of_areas(columns: Seq<Column>, rows: Seq<Row>, i: int)
    requires
        columns_hold(columns, rows_view(rows)),
        0 <= i < rows.len(),
    ensures
        columns.len() == 6,
        forall|k: int| 0 <= k < 6 ==> (#[trigger] columns[k]).height() == rows.len(),
        columns[0].name@ == "pref_name"@ && columns[0].text_at(i) == Some(rows[i].pref_name@),
        columns[1].name@ == "subprefecture_name"@ && columns[1].text_at(i)
            == text::optional_view(rows[i].subprefecture_name),
        columns[2].name@ == "county_name"@ && columns[2].text_at(i) == text::optional_view(
            rows[i].county_name,
        ),
        columns[3].name@ == "city_name"@ && columns[3].text_at(i) == text::optional_view(
            rows[i].city_name,
        ),
        columns[4].name@ == "ward_name"@ && columns[4].text_at(i) == text::optional_view(
            rows[i].ward_name,
        ),
        columns[5].name@ == "admin_id"@ && columns[5].text_at(i) == Some(rows[i].admin_id@),
{
    let all = rows_view(rows);
    let n = all.len();
    let a0 = Seq::new(n, |i: int| all[i].pref_name);
    let a1 = Seq::new(n, |i: int| all[i].subprefecture_name);
    let a2 = Seq::new(n, |i: int| all[i].county_name);
    let a3 = Seq::new(n, |i: int| all[i].city_name);
    let a4 = Seq::new(n, |i: int| all[i].ward_name);
    let a5 = Seq::new(n, |i: int| all[i].admin_id);
    geoparquet::lemma_text_column(columns[0], "pref_name"@, a0);
    geoparquet::lemma_optional_column(columns[1], "subprefecture_name"@, a1);
    geoparquet::lemma_optional_column(columns[2], "county_name"@, a2);
    geoparquet::lemma_optional_column(columns[3], "city_name"@, a3);
    geoparquet::lemma_optional_column(columns[4], "ward_name"@, a4);
    geoparquet::lemma_text_column(columns[5], "admin_id"@, a5);
    assert(columns[0].text_at(i) == Some(a0[i]));
    assert(columns[5].text_at(i) == Some(a5[i]));
}

/// Moving an area moves its polygons, point by point, and leaves what it is
/// called as it was.
pub proof fn law_areas_are_moved<F: Fn(&Vec<Coord>) -> Option<Vec<Coord>>>(
    transform: F,
    g: spec_fn(Coord) -> Coord,
    before: Row,
    after: Row,
    k: int,
    r: int,
)
    requires
        transform::moves_by(transform, g),
        row_moved(transform, before, after),
        0 <= k < before.geometry@.len(),
    ensures
        after.pref_name@ == before.pref_name@,
        text::optional_view(after.subprefecture_name) == text::optional_view(
            before.subprefecture_name,
        ),
        text::optional_view(after.county_name) == text::optional_view(before.county_name),
        text::optional_view(after.city_name) == text::optional_view(before.city_name),
        text::optional_view(after.ward_name) == text::optional_view(before.ward_name),
        after.admin_id@ == before.admin_id@,
        after.geometry@.len() == before.geometry@.len(),
        transform::follows_moved(after.geometry@[k].exterior@, before.geometry@[k].exterior@, g),
        after.geometry@[k].interiors@.len() == before.geometry@[k].interiors@.len(),
        0 <= r < before.geometry@[k].interiors@.len() ==> transform::follows_moved(
            after.geometry@[k].interiors@[r]@,
            before.geometry@[k].interiors@[r]@,
            g,
        ),
{
    transform::law_polygons_are_moved_ring_by_ring(
        transform,
        g,
        before.geometry@,
        after.geometry@,
        k,
        r,
    );
}

/// A feature that cannot be read is refused for the first thing that is wrong
/// with it: its geometry, then the name of its prefecture, then its code.
pub proof fn law_refusals_say_what_is_wrong(f: FeatureView)
    ensures
        f.geometry is None ==> row_in(f) == Err::<RowView, N03Fault>(N03Fault::MissingGeometry),
        f.geometry is Some && !(f.geometry->0 is Polygon) && !(f.geometry->0 is MultiPolygon)
            ==> row_in(f) == Err::<RowView, N03Fault>(N03Fault::UnexpectedGeometry),
        f.geometry is Some && f.geometry->0 is Polygon && (exists|r: int, j: int|
            0 <= r < f.geometry->0->Polygon_0.len() && 0 <= j < f.geometry->0->Polygon_0[r].len()
                && (#[trigger] f.geometry->0->Polygon_0[r][j]).len() < 2) ==> row_in(f) == Err::<
            RowView,
            N03Fault,
        >(N03Fault::ShortPosition),
        polygons_in(f.geometry) is Ok && f.text("N03_001"@) is None ==> row_in(f) == Err::<
            RowView,
            N03Fault,
        >(N03Fault::MissingPrefName),
        polygons_in(f.geometry) is Ok && f.text("N03_001"@) is Some && f.text("N03_007"@) is None
            ==> row_in(f) == Err::<RowView, N03Fault>(N03Fault::MissingAdminId),
{
    if f.geometry is Some && f.geometry->0 is Polygon {
        let rings = f.geometry->0->Polygon_0;
        if exists|r: int, j: int|
            0 <= r < rings.len() && 0 <= j < rings[r].len() && (#[trigger] rings[r][j]).len() < 2 {
            let (r, j) = choose|r: int, j: int|
                0 <= r < rings.len() && 0 <= j < rings[r].len() && (#[trigger] rings[r][j]).len()
                    < 2;
            assert(!features::line_complete(rings[r]));
            assert(!features::rings_complete(rings));
        }
    }
}

} // verus!
