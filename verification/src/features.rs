//! GeoJSON feature collections: their features, and the coordinate reference
//! system that they name.
use crate::geo;
use crate::geo::{Coord, Polygon, PolygonView};
use crate::json;
use crate::json::{json_as_str, json_get, JsonView};
use crate::number::Real;
use crate::text;
use crate::text::{parse_u32, quote, tail_after_last};
use geojson::{GeometryValue, Position};
use vstd::prelude::*;

verus! {

// ---------------------------------------------------------------------------
// geojson
// ---------------------------------------------------------------------------

/// The positions of a geometry, each with however many numbers it has.
#[derive(Debug, PartialEq)]
pub enum RawGeometry {
    Line(Vec<Vec<Real>>),
    Polygon(Vec<Vec<Vec<Real>>>),
    MultiPolygon(Vec<Vec<Vec<Vec<Real>>>>),
    /// Any other type of geometry.
    Other,
}

/// The view of a [`RawGeometry`].
#[verifier::ext_equal]
pub enum RawView {
    Line(Seq<Seq<Real>>),
    Polygon(Seq<Seq<Seq<Real>>>),
    MultiPolygon(Seq<Seq<Seq<Seq<Real>>>>),
    Other,
}

pub open spec fn line_view(line: Seq<Vec<Real>>) -> Seq<Seq<Real>> {
    Seq::new(line.len(), |i: int| line[i]@)
}

pub open spec fn rings_view(rings: Seq<Vec<Vec<Real>>>) -> Seq<Seq<Seq<Real>>> {
    Seq::new(rings.len(), |i: int| line_view(rings[i]@))
}

pub open spec fn polygons_view(polygons: Seq<Vec<Vec<Vec<Real>>>>) -> Seq<Seq<Seq<Seq<Real>>>> {
    Seq::new(polygons.len(), |i: int| rings_view(polygons[i]@))
}

impl View for RawGeometry {
    type V = RawView;

    open spec fn view(&self) -> RawView {
        match self {
            RawGeometry::Line(l) => RawView::Line(line_view(l@)),
            RawGeometry::Polygon(p) => RawView::Polygon(rings_view(p@)),
            RawGeometry::MultiPolygon(m) => RawView::MultiPolygon(polygons_view(m@)),
            RawGeometry::Other => RawView::Other,
        }
    }
}

/// What a feature holds.
pub struct FeatureView {
    pub properties: Map<Seq<char>, JsonView>,
    pub geometry: Option<RawView>,
}

impl FeatureView {
    /// The text of a property; nothing where it is missing or no text.
    pub open spec fn text(self, key: Seq<char>) -> Option<Seq<char>> {
        if self.properties.contains_key(key) {
            self.properties[key].text()
        } else {
            None
        }
    }
}

/// What a feature collection holds.
pub struct CollectionView {
    /// The members beside those that GeoJSON defines; `None` where there are none.
    pub foreign: Option<Map<Seq<char>, JsonView>>,
    pub features: Seq<FeatureView>,
}

/// What a GeoJSON text holds.
pub enum GeoJsonView {
    Collection(CollectionView),
    Other,
}

#[verifier::external_type_specification]
#[verifier::external_body]
pub struct ExFeatureCollection(geojson::FeatureCollection);

/// What a `geojson::FeatureCollection` holds.
pub uninterp spec fn collection_of(fc: geojson::FeatureCollection) -> CollectionView;

/// What a text reads as, parsed as `geojson::GeoJson`, or what the error says.
pub uninterp spec fn geojson_text(text: Seq<char>) -> Result<GeoJsonView, Seq<char>>;

/// `str::parse` into a `geojson::GeoJson`: a feature collection, something
/// else (`None`), or an error by its text, as a function of the text.
#[verifier::external_body]
fn geojson_parse(text: &str) -> (r: Result<Option<geojson::FeatureCollection>, String>)
    ensures
        match r {
            Ok(Some(fc)) => geojson_text(text@) == Ok::<GeoJsonView, Seq<char>>(
                GeoJsonView::Collection(collection_of(fc)),
            ),
            Ok(None) => geojson_text(text@) == Ok::<GeoJsonView, Seq<char>>(GeoJsonView::Other),
            Err(e) => geojson_text(text@) == Err::<GeoJsonView, Seq<char>>(e@),
        },
{
    match text.parse::<geojson::GeoJson>() {
        Ok(geojson::GeoJson::FeatureCollection(fc)) => Ok(Some(fc)),
        Ok(_) => Ok(None),
        Err(e) => Err(e.to_string()),
    }
}

/// The number of `FeatureCollection::features`.
#[verifier::external_body]
pub(crate) fn feature_count(fc: &geojson::FeatureCollection) -> (n: usize)
    ensures
        n == collection_of(*fc).features.len(),
{
    fc.features.len()
}

/// `Feature::property`: the property of that name.
#[verifier::external_body]
fn feature_property<'a>(fc: &'a geojson::FeatureCollection, i: usize, key: &str) -> (r: Option<
    &'a serde_json::Value,
>)
    requires
        i < collection_of(*fc).features.len(),
    ensures
        ({
            let properties = collection_of(*fc).features[i as int].properties;
            match r {
                Some(v) => properties.contains_key(key@) && properties[key@] == json::json_of(*v),
                None => !properties.contains_key(key@),
            }
        }),
{
    fc.features[i].property(key)
}

/// `Feature::geometry`: its positions, number for number.
#[verifier::external_body]
pub(crate) fn feature_geometry(fc: &geojson::FeatureCollection, i: usize) -> (r: Option<
    RawGeometry,
>)
    requires
        i < collection_of(*fc).features.len(),
    ensures
        match r {
            Some(g) => collection_of(*fc).features[i as int].geometry == Some(g@),
            None => collection_of(*fc).features[i as int].geometry is None,
        },
{
    let at = |p: &Position| p.as_slice().iter().map(|x| Real { bits: x.to_bits() }).collect();
    let line = |l: &Vec<Position>| l.iter().map(at).collect();
    let rings = |p: &Vec<Vec<Position>>| p.iter().map(line).collect();
    Some(
        match &fc.features[i].geometry.as_ref()?.value {
            GeometryValue::LineString { coordinates } => RawGeometry::Line(line(coordinates)),
            GeometryValue::Polygon { coordinates } => RawGeometry::Polygon(rings(coordinates)),
            GeometryValue::MultiPolygon { coordinates } => {
                RawGeometry::MultiPolygon(coordinates.iter().map(rings).collect())
            },
            _ => RawGeometry::Other,
        },
    )
}

/// `FeatureCollection::foreign_members`: whether there are any.
#[verifier::external_body]
fn has_foreign(fc: &geojson::FeatureCollection) -> (b: bool)
    ensures
        b == (collection_of(*fc).foreign is Some),
{
    fc.foreign_members.is_some()
}

/// `Map::get` on `FeatureCollection::foreign_members`.
#[verifier::external_body]
fn foreign_member<'a>(fc: &'a geojson::FeatureCollection, key: &str) -> (r: Option<
    &'a serde_json::Value,
>)
    ensures
        match r {
            Some(v) => collection_of(*fc).foreign is Some && collection_of(
                *fc,
            ).foreign->0.contains_key(key@) && collection_of(*fc).foreign->0[key@]
                == json::json_of(*v),
            None => collection_of(*fc).foreign is None || !collection_of(
                *fc,
            ).foreign->0.contains_key(key@),
        },
{
    fc.foreign_members.as_ref()?.get(key)
}

// ---------------------------------------------------------------------------
// Reading a collection
// ---------------------------------------------------------------------------

/// Why a text gives no features of a known reference system.
#[derive(Debug, PartialEq)]
pub enum CollectionError {
    /// The text cannot be read, for that reason.
    NotGeoJson(String),
    NotFeatureCollection,
    /// There are no members beside those of GeoJSON, so no `crs`.
    NoForeignMembers,
    NoCrsName,
    /// The name of the `crs` does not end in a number.
    BadCrsName(String),
}

/// The view of a [`CollectionError`].
pub enum CollectionFault {
    NotGeoJson(Seq<char>),
    NotFeatureCollection,
    NoForeignMembers,
    NoCrsName,
    BadCrsName(Seq<char>),
}

impl View for CollectionError {
    type V = CollectionFault;

    open spec fn view(&self) -> CollectionFault {
        match self {
            CollectionError::NotGeoJson(cause) => CollectionFault::NotGeoJson(cause@),
            CollectionError::NotFeatureCollection => CollectionFault::NotFeatureCollection,
            CollectionError::NoForeignMembers => CollectionFault::NoForeignMembers,
            CollectionError::NoCrsName => CollectionFault::NoCrsName,
            CollectionError::BadCrsName(name) => CollectionFault::BadCrsName(name@),
        }
    }
}

impl CollectionFault {
    pub open spec fn spec_text(self) -> Seq<char> {
        match self {
            CollectionFault::NotGeoJson(cause) => cause,
            CollectionFault::NotFeatureCollection => "expected a FeatureCollection"@,
            CollectionFault::NoForeignMembers => "geojson has no crs (foreign_members is empty)"@,
            CollectionFault::NoCrsName => "crs.properties.name not found in geojson"@,
            CollectionFault::BadCrsName(name) => "crs name is not a valid EPSG code: "@
                + text::quoted(name),
        }
    }
}

impl CollectionError {
    pub fn to_string(&self) -> (text: String)
        ensures
            text@ == self@.spec_text(),
    {
        match self {
            CollectionError::NotGeoJson(cause) => cause.clone(),
            CollectionError::NotFeatureCollection => "expected a FeatureCollection".to_string(),
            CollectionError::NoForeignMembers => {
                "geojson has no crs (foreign_members is empty)".to_string()
            },
            CollectionError::NoCrsName => "crs.properties.name not found in geojson".to_string(),
            CollectionError::BadCrsName(name) => {
                let mut text = "crs name is not a valid EPSG code: ".to_string();
                text.append(quote(name.as_str()).as_str());
                text
            },
        }
    }
}

/// The feature collection that a text holds.
pub open spec fn collection_in(text: Seq<char>) -> Result<CollectionView, CollectionFault> {
    match geojson_text(text) {
        Ok(GeoJsonView::Collection(c)) => Ok(c),
        Ok(GeoJsonView::Other) => Err(CollectionFault::NotFeatureCollection),
        Err(cause) => Err(CollectionFault::NotGeoJson(cause)),
    }
}

pub(crate) fn read_collection(text: &str) -> (r: Result<geojson::FeatureCollection, CollectionError>)
    ensures
        match r {
            Ok(fc) => collection_in(text@) == Ok::<CollectionView, CollectionFault>(
                collection_of(fc),
            ),
            Err(e) => collection_in(text@) == Err::<CollectionView, CollectionFault>(e@),
        },
{
    match geojson_parse(text) {
        Ok(Some(fc)) => Ok(fc),
        Ok(None) => Err(CollectionError::NotFeatureCollection),
        Err(cause) => Err(CollectionError::NotGeoJson(cause)),
    }
}

/// The EPSG code at the end of a `crs` name such as `urn:ogc:def:crs:EPSG::6668`.
pub open spec fn epsg_in_name(name: Seq<char>) -> Result<u32, CollectionFault> {
    match text::parsed_int(text::after_last(name, ':'), false) {
        Some(n) => if n <= u32::MAX {
            Ok(n as u32)
        } else {
            Err(CollectionFault::BadCrsName(name))
        },
        None => Err(CollectionFault::BadCrsName(name)),
    }
}

/// The EPSG code that the `crs` of a collection names.
pub open spec fn epsg_of(c: CollectionView) -> Result<u32, CollectionFault> {
    match c.foreign {
        None => Err(CollectionFault::NoForeignMembers),
        Some(members) => {
            let crs = JsonView::Object(members).member("crs"@);
            match json::member_of(json::member_of(crs, "properties"@), "name"@) {
                Some(JsonView::Text(name)) => epsg_in_name(name),
                _ => Err(CollectionFault::NoCrsName),
            }
        },
    }
}

/// The EPSG code at the end of a `crs` name.
pub fn parse_crs_name(name: &str) -> (r: Result<u32, CollectionError>)
    ensures
        match r {
            Ok(code) => epsg_in_name(name@) == Ok::<u32, CollectionFault>(code),
            Err(e) => epsg_in_name(name@) == Err::<u32, CollectionFault>(e@),
        },
{
    proof {
        lemma_parsed_nonnegative(text::after_last(name@, ':'));
    }
    match parse_u32(tail_after_last(name, ':').as_str()) {
        Some(code) => Ok(code),
        None => Err(CollectionError::BadCrsName(name.to_string())),
    }
}

proof fn lemma_parsed_nonnegative(s: Seq<char>)
    ensures
        match text::parsed_int(s, false) {
            Some(n) => n >= 0,
            None => true,
        },
{
    if text::all_digits(s) {
        lemma_digits_nonnegative(s);
    }
    if s.len() > 0 && text::all_digits(s.drop_first()) {
        lemma_digits_nonnegative(s.drop_first());
    }
}

proof fn lemma_digits_nonnegative(s: Seq<char>)
    requires
        text::all_digits(s),
    ensures
        text::digits_value(s) >= 0,
    decreases s.len(),
{
    if s.len() > 0 {
        assert(text::is_digit(s.last()));
        assert forall|i: int| 0 <= i < s.drop_last().len() implies text::is_digit(
            #[trigger] s.drop_last()[i],
        ) by {
            assert(s.drop_last()[i] == s[i]);
        }
        lemma_digits_nonnegative(s.drop_last());
    }
}

/// Reads the EPSG code of the source coordinates from the `crs` of a collection.
pub fn extract_epsg(fc: &geojson::FeatureCollection) -> (r: Result<u32, CollectionError>)
    ensures
        match r {
            Ok(code) => epsg_of(collection_of(*fc)) == Ok::<u32, CollectionFault>(code),
            Err(e) => epsg_of(collection_of(*fc)) == Err::<u32, CollectionFault>(e@),
        },
{
    if !has_foreign(fc) {
        return Err(CollectionError::NoForeignMembers);
    }
    let crs = match foreign_member(fc, "crs") {
        Some(v) => v,
        None => {
            return Err(CollectionError::NoCrsName);
        },
    };
    let properties = match json_get(crs, "properties") {
        Some(v) => v,
        None => {
            return Err(CollectionError::NoCrsName);
        },
    };
    let name = match json_get(properties, "name") {
        Some(v) => v,
        None => {
            return Err(CollectionError::NoCrsName);
        },
    };
    match json_as_str(name) {
        Some(s) => parse_crs_name(s),
        None => Err(CollectionError::NoCrsName),
    }
}

/// The text of a property of the `i`-th feature.
pub(crate) fn feature_text(fc: &geojson::FeatureCollection, i: usize, key: &str) -> (r: Option<
    String,
>)
    requires
        i < collection_of(*fc).features.len(),
    ensures
        match r {
            Some(s) => collection_of(*fc).features[i as int].text(key@) == Some(s@),
            None => collection_of(*fc).features[i as int].text(key@) is None,
        },
{
    match feature_property(fc, i, key) {
        Some(v) => match json_as_str(v) {
            Some(s) => Some(s.to_string()),
            None => None,
        },
        None => None,
    }
}

// ---------------------------------------------------------------------------
// Positions to coordinates
// ---------------------------------------------------------------------------

/// Every position has at least two numbers.
pub open spec fn line_complete(line: Seq<Seq<Real>>) -> bool {
    forall|i: int| 0 <= i < line.len() ==> (#[trigger] line[i]).len() >= 2
}

pub open spec fn rings_complete(rings: Seq<Seq<Seq<Real>>>) -> bool {
    forall|i: int| 0 <= i < rings.len() ==> line_complete(#[trigger] rings[i])
}

pub open spec fn polygons_complete(polygons: Seq<Seq<Seq<Seq<Real>>>>) -> bool {
    forall|i: int| 0 <= i < polygons.len() ==> rings_complete(#[trigger] polygons[i])
}

/// The first two numbers of each position.
pub open spec fn coords(line: Seq<Seq<Real>>) -> Seq<Coord> {
    Seq::new(line.len(), |i: int| Coord { x: line[i][0], y: line[i][1] })
}

/// Equal as numbers: the two zeros are equal, a NaN equals nothing.
pub open spec fn same_number(a: Real, b: Real) -> bool {
    !a.nan() && !b.nan() && (a == b || (a.magnitude() == 0 && b.magnitude() == 0))
}

pub open spec fn same_point(a: Coord, b: Coord) -> bool {
    same_number(a.x, b.x) && same_number(a.y, b.y)
}

/// A ring that ends where it starts: its first point follows where it does not.
pub open spec fn closed_ring(ring: Seq<Coord>) -> Seq<Coord> {
    if ring.len() == 0 || same_point(ring[0], ring.last()) {
        ring
    } else {
        ring.push(ring[0])
    }
}

/// The polygon of a list of rings: the first is the outer one.
pub open spec fn polygon_from(rings: Seq<Seq<Seq<Real>>>) -> PolygonView {
    if rings.len() == 0 {
        PolygonView { exterior: Seq::empty(), interiors: Seq::empty() }
    } else {
        PolygonView {
            exterior: closed_ring(coords(rings[0])),
            interiors: Seq::new(
                (rings.len() - 1) as nat,
                |i: int| closed_ring(coords(rings[i + 1])),
            ),
        }
    }
}

pub open spec fn polygons_from(polygons: Seq<Seq<Seq<Seq<Real>>>>) -> Seq<PolygonView> {
    Seq::new(polygons.len(), |i: int| polygon_from(polygons[i]))
}

/// The coordinates of a line; `None` where a position has fewer than two numbers.
pub fn line_coords(line: &Vec<Vec<Real>>) -> (r: Option<Vec<Coord>>)
    ensures
        match r {
            Some(c) => line_complete(line_view(line@)) && c@ == coords(line_view(line@)),
            None => !line_complete(line_view(line@)),
        },
{
    let mut out: Vec<Coord> = Vec::new();
    let mut i: usize = 0;
    let ghost all = line_view(line@);
    while i < line.len()
        invariant
            i <= line@.len(),
            all == line_view(line@),
            out@.len() == i,
            forall|j: int| 0 <= j < i ==> (#[trigger] all[j]).len() >= 2,
            forall|j: int| 0 <= j < i ==> out@[j] == coords(all)[j],
        decreases line@.len() - i,
    {
        assert(all[i as int] == line@[i as int]@);
        if line[i].len() < 2 {
            return None;
        }
        out.push(Coord { x: line[i][0], y: line[i][1] });
        i = i + 1;
    }
    assert(out@ =~= coords(all));
    Some(out)
}

fn numbers_equal(a: &Real, b: &Real) -> (same: bool)
    ensures
        same == same_number(*a, *b),
{
    !a.is_nan() && !b.is_nan() && (a.bits == b.bits || (a.is_zero() && b.is_zero()))
}

pub fn close_ring(ring: Vec<Coord>) -> (r: Vec<Coord>)
    ensures
        r@ == closed_ring(ring@),
{
    let mut ring = ring;
    if ring.len() > 0 {
        let first = ring[0];
        let last = ring[ring.len() - 1];
        if !(numbers_equal(&first.x, &last.x) && numbers_equal(&first.y, &last.y)) {
            ring.push(first);
        }
    }
    ring
}

/// The polygon of a list of rings; `None` where a position has fewer than two numbers.
pub fn rings_polygon(rings: &Vec<Vec<Vec<Real>>>) -> (r: Option<Polygon>)
    ensures
        match r {
            Some(p) => rings_complete(rings_view(rings@)) && p@ == polygon_from(rings_view(rings@)),
            None => !rings_complete(rings_view(rings@)),
        },
{
    let ghost all = rings_view(rings@);
    if rings.len() == 0 {
        let p = Polygon { exterior: Vec::new(), interiors: Vec::new() };
        assert(p@ =~= polygon_from(all));
        return Some(p);
    }
    assert(all[0] == line_view(rings@[0]@));
    let exterior = match line_coords(&rings[0]) {
        Some(c) => close_ring(c),
        None => {
            return None;
        },
    };
    let mut interiors: Vec<Vec<Coord>> = Vec::new();
    let mut i: usize = 1;
    while i < rings.len()
        invariant
            1 <= i <= rings@.len(),
            all == rings_view(rings@),
            interiors@.len() == i - 1,
            forall|j: int| 0 <= j < i ==> line_complete(#[trigger] all[j]),
            forall|j: int|
                0 <= j < i - 1 ==> (#[trigger] interiors@[j])@ == closed_ring(coords(all[j + 1])),
        decreases rings@.len() - i,
    {
        assert(all[i as int] == line_view(rings@[i as int]@));
        match line_coords(&rings[i]) {
            Some(c) => {
                interiors.push(close_ring(c));
            },
            None => {
                return None;
            },
        }
        i = i + 1;
    }
    let p = Polygon { exterior, interiors };
    assert(p@.interiors =~= polygon_from(all).interiors);
    Some(p)
}

/// The polygons of a list; `None` where a position has fewer than two numbers.
pub fn raw_polygons(polygons: &Vec<Vec<Vec<Vec<Real>>>>) -> (r: Option<Vec<Polygon>>)
    ensures
        match r {
            Some(p) => polygons_complete(polygons_view(polygons@)) && geo::polygons_of(p@)
                == polygons_from(polygons_view(polygons@)),
            None => !polygons_complete(polygons_view(polygons@)),
        },
{
    let ghost all = polygons_view(polygons@);
    let mut out: Vec<Polygon> = Vec::new();
    let mut i: usize = 0;
    while i < polygons.len()
        invariant
            i <= polygons@.len(),
            all == polygons_view(polygons@),
            out@.len() == i,
            forall|j: int| 0 <= j < i ==> rings_complete(#[trigger] all[j]),
            forall|j: int| 0 <= j < i ==> (#[trigger] out@[j])@ == polygon_from(all[j]),
        decreases polygons@.len() - i,
    {
        assert(all[i as int] == rings_view(polygons@[i as int]@));
        match rings_polygon(&polygons[i]) {
            Some(p) => {
                out.push(p);
            },
            None => {
                return None;
            },
        }
        i = i + 1;
    }
    assert(geo::polygons_of(out@) =~= polygons_from(all));
    Some(out)
}

/// A closed ring ends at the point where it starts, unless a coordinate is a NaN.
pub proof fn law_rings_are_closed(ring: Seq<Coord>)
    requires
        ring.len() > 0,
        !ring[0].x.nan(),
        !ring[0].y.nan(),
    ensures
        same_point(closed_ring(ring)[0], closed_ring(ring).last()),
{
}

/// Closing a ring keeps its points in order and adds none, or its first point
/// at the end where it does not end there yet.
pub proof fn law_closing_keeps_the_points(ring: Seq<Coord>)
    ensures
        closed_ring(ring).take(ring.len() as int) == ring,
        closed_ring(ring).len() == ring.len() || closed_ring(ring).len() == ring.len() + 1,
        closed_ring(ring).len() > ring.len() <==> ring.len() > 0 && !same_point(
            ring[0],
            ring.last(),
        ),
        closed_ring(ring).len() > ring.len() ==> closed_ring(ring).last() == ring[0],
{
    assert(closed_ring(ring).take(ring.len() as int) =~= ring);
}

/// Points follow positions, one for one: the first number is `x`, the second `y`.
pub open spec fn follows(line: Seq<Coord>, positions: Seq<Seq<Real>>) -> bool {
    &&& line.len() == positions.len()
    &&& forall|j: int|
        #![trigger line[j]]
        0 <= j < line.len() ==> line[j].x == positions[j][0] && line[j].y == positions[j][1]
}

/// Points follow positions, and the first of them may come again at the end.
pub open spec fn goes_around(ring: Seq<Coord>, positions: Seq<Seq<Real>>) -> bool {
    ||| follows(ring, positions)
    ||| positions.len() > 0 && ring.len() == positions.len() + 1 && follows(
        ring.drop_last(),
        positions,
    ) && ring.last() == ring[0]
}

/// A line has the points of its positions.
pub proof fn law_lines_follow_their_positions(line: Seq<Seq<Real>>)
    ensures
        follows(coords(line), line),
{
}

/// A polygon has the points of its rings: the first of them is the outer one,
/// the others are its holes, in order.
pub proof fn law_polygons_follow_their_rings(rings: Seq<Seq<Seq<Real>>>, r: int)
    requires
        0 <= r < rings.len(),
    ensures
        polygon_from(rings).interiors.len() == rings.len() - 1,
        r == 0 ==> goes_around(polygon_from(rings).exterior, rings[0]),
        r > 0 ==> goes_around(polygon_from(rings).interiors[r - 1], rings[r]),
{
    let line = coords(rings[r]);
    assert(line.push(line[0]).drop_last() =~= line);
}

/// Several polygons stay as many, in order, each with the points of its rings.
pub proof fn law_polygons_stay_in_order(polygons: Seq<Seq<Seq<Seq<Real>>>>, k: int, r: int)
    requires
        0 <= k < polygons.len(),
        0 <= r < polygons[k].len(),
    ensures
        polygons_from(polygons).len() == polygons.len(),
        polygons_from(polygons)[k].interiors.len() == polygons[k].len() - 1,
        r == 0 ==> goes_around(polygons_from(polygons)[k].exterior, polygons[k][0]),
        r > 0 ==> goes_around(polygons_from(polygons)[k].interiors[r - 1], polygons[k][r]),
{
    law_polygons_follow_their_rings(polygons[k], r);
}

/// A reference system that is named by its EPSG code, behind whatever ends in
/// a colon, is that of the code.
pub proof fn law_names_end_in_their_code(before: Seq<char>, code: u32)
    ensures
        epsg_in_name(before + seq![':'] + text::decimal_text(code as nat)) == Ok::<
            u32,
            CollectionFault,
        >(code),
{
    let digits = text::decimal_text(code as nat);
    let name = before + seq![':'] + digits;
    text::law_decimal_round_trip(code as nat);
    text::lemma_decimal_digits(code as nat);
    text::lemma_last_position(name, ':');
    let at = text::last_position(name, ':');
    assert(name[before.len() as int] == ':');
    if at > before.len() {
        assert(name[at] == digits[at - before.len() - 1]);
        assert(text::is_digit(digits[at - before.len() - 1]));
    }
    assert(at == before.len());
    assert(name.skip(at + 1) =~= digits);
}

/// The reference system of a collection is the one that `crs.properties.name`
/// names.
pub proof fn law_collections_name_their_system(c: CollectionView, before: Seq<char>, code: u32)
    requires
        c.foreign is Some,
        json::member_of(
            json::member_of(JsonView::Object(c.foreign->0).member("crs"@), "properties"@),
            "name"@,
        ) == Some(JsonView::Text(before + seq![':'] + text::decimal_text(code as nat))),
    ensures
        epsg_of(c) == Ok::<u32, CollectionFault>(code),
{
    law_names_end_in_their_code(before, code);
}

/// The text of a property is what stands under its name, where that is a text;
/// a number, and what is not there, is none.
pub proof fn law_properties_are_texts(f: FeatureView, key: Seq<char>, t: Seq<char>)
    ensures
        f.text(key) == Some(t) <==> f.properties.contains_key(key) && f.properties[key]
            == JsonView::Text(t),
{
}

/// A text is read where it is GeoJSON and holds a collection of features, and is
/// refused for the one that it is not.
pub proof fn law_only_collections_are_read(text: Seq<char>, c: CollectionView)
    ensures
        collection_in(text) == Ok::<CollectionView, CollectionFault>(c) <==> geojson_text(text)
            == Ok::<GeoJsonView, Seq<char>>(GeoJsonView::Collection(c)),
        geojson_text(text) == Ok::<GeoJsonView, Seq<char>>(GeoJsonView::Other) ==> collection_in(
            text,
        ) == Err::<CollectionView, CollectionFault>(CollectionFault::NotFeatureCollection),
        geojson_text(text) is Err ==> collection_in(text) == Err::<CollectionView, CollectionFault>(
            CollectionFault::NotGeoJson(geojson_text(text)->Err_0),
        ),
        c.foreign is None ==> epsg_of(c) == Err::<u32, CollectionFault>(
            CollectionFault::NoForeignMembers,
        ),
        c.foreign is Some && !c.foreign->0.contains_key("crs"@) ==> epsg_of(c) == Err::<
            u32,
            CollectionFault,
        >(CollectionFault::NoCrsName),
{
}

/// Two coordinates are equal where they are the same number: the two zeros are,
/// and what is no number equals nothing.
pub proof fn law_equal_coordinates_are_one_number(a: Real, b: Real)
    ensures
        a.finite() && b.finite() ==> (same_number(a, b) <==> a.value() == b.value()),
        a.nan() || b.nan() ==> !same_number(a, b),
        same_number(a, b) <==> same_number(b, a),
{
    if a.finite() && b.finite() {
        crate::number::law_smaller_and_larger(a, b);
        crate::number::law_smaller_and_larger(b, a);
        if a.rank() < b.rank() {
            crate::number::law_ranks_order_numbers(a, b);
        }
        if b.rank() < a.rank() {
            crate::number::law_ranks_order_numbers(b, a);
        }
        if a.rank() == b.rank() {
            crate::number::law_rank_is_injective(a, b);
        }
        if a.value() == b.value() && a != b {
            assert(a.value() == 0);
            crate::number::law_only_zeros_are_zero(a);
            crate::number::law_only_zeros_are_zero(b);
        }
        if a.magnitude() == 0 {
            crate::number::law_only_zeros_are_zero(a);
        }
        if b.magnitude() == 0 {
            crate::number::law_only_zeros_are_zero(b);
        }
    }
}

} // verus!
