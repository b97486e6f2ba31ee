//! Buildings of the PLATEAU city models.
//!
//! Only the outline of the roof at the lowest level of detail is used. Every
//! building has one, it is flat, and a map can show it as it is. What stands
//! above it is told by the height.
use crate::codelists;
use crate::features;
use crate::features::close_ring;
use crate::geo;
use crate::geo::{
    bounds_of_polygons, copy_polygons, Bounds, Coord, Polygon, PolygonView, Shape, ShapeView,
};
use crate::geoparquet;
use crate::geoparquet::{
    f64_nullable_column, i32_nullable_column, table_of_shapes, utf8_nullable_column, Column,
    Provenance, Table, TableError,
};
use crate::number::Real;
use crate::text;
use crate::text::{copy_optional, ends_with, same_text, sort_texts, starts_with};
use crate::transform;
use crate::transform::{transform_polygons, TransformError};
use vstd::prelude::*;

pub use crate::codelists::Codelists;

verus! {

/// The reference system of the coordinates once the elevation is dropped.
pub const SOURCE_EPSG: u32 = 6668;

/// What stands for an unknown number of storeys. As a number it would be a
/// tower.
pub const UNKNOWN_SENTINEL: u64 = 9999;

/// The bit pattern of -9999, which stands for an unknown height.
pub const UNKNOWN_HEIGHT_BITS: u64 = 0xc0c3_8780_0000_0000;

// ---------------------------------------------------------------------------
// Buildings as they are read
// ---------------------------------------------------------------------------

/// What a geometry of a building is made of.
#[derive(Debug, Clone, Copy, PartialEq, Eq, Structural)]
pub enum GeometryKind {
    Surface,
    Other,
}

/// A geometry of a building: `len` polygons of the store from `pos` on.
#[derive(Debug, Clone, Copy, PartialEq, Eq, Structural)]
pub struct GeometryRef {
    pub lod: u8,
    pub kind: GeometryKind,
    pub pos: u32,
    pub len: u32,
}

/// A vertex, in the order that the source has.
#[derive(Debug, Clone, Copy, PartialEq, Eq, Structural)]
pub struct Vertex {
    pub lat: Real,
    pub lon: Real,
    pub elevation: Real,
}

/// A polygon whose rings name vertices of the store.
#[derive(Debug, PartialEq)]
pub struct IndexedPolygon {
    pub exterior: Vec<u32>,
    pub interiors: Vec<Vec<u32>>,
}

/// The geometries of a building share their vertices.
#[derive(Debug, PartialEq)]
pub struct GeometryStore {
    pub vertices: Vec<Vertex>,
    pub polygons: Vec<IndexedPolygon>,
}

/// What identifies a building.
#[derive(Debug, PartialEq)]
pub struct BuildingId {
    pub building_id: Option<String>,
    pub city: Option<String>,
}

/// A building. Codes have been resolved.
#[derive(Debug, PartialEq)]
pub struct Building {
    pub geometries: Vec<GeometryRef>,
    pub store: GeometryStore,
    pub ids: Vec<BuildingId>,
    pub names: Vec<String>,
    pub usages: Vec<String>,
    pub class: Option<String>,
    pub measured_height: Option<Real>,
    pub storeys_above_ground: Option<u64>,
}

impl GeometryStore {
    pub open spec fn ring_valid(self, ring: Seq<u32>) -> bool {
        forall|i: int| 0 <= i < ring.len() ==> (#[trigger] ring[i]) < self.vertices@.len()
    }

    pub open spec fn polygon_valid(self, p: IndexedPolygon) -> bool {
        &&& self.ring_valid(p.exterior@)
        &&& forall|i: int| 0 <= i < p.interiors@.len() ==> self.ring_valid((#[trigger] p.interiors@[i])@)
    }

    /// The polygons from `pos` to `pos + len` are there, and so are their vertices.
    pub open spec fn range_valid(self, pos: u32, len: u32) -> bool {
        &&& pos + len <= u32::MAX
        &&& pos + len <= self.polygons@.len()
        &&& forall|i: int| pos <= i < pos + len ==> self.polygon_valid(#[trigger] self.polygons@[i])
    }

    fn check_ring(&self, ring: &Vec<u32>) -> (b: bool)
        ensures
            b == self.ring_valid(ring@),
    {
        let mut i: usize = 0;
        while i < ring.len()
            invariant
                i <= ring@.len(),
                forall|j: int| 0 <= j < i ==> (#[trigger] ring@[j]) < self.vertices@.len(),
            decreases ring@.len() - i,
        {
            if ring[i] as usize >= self.vertices.len() {
                return false;
            }
            i = i + 1;
        }
        true
    }

    fn check_polygon(&self, p: &IndexedPolygon) -> (b: bool)
        ensures
            b == self.polygon_valid(*p),
    {
        if !self.check_ring(&p.exterior) {
            return false;
        }
        let mut i: usize = 0;
        while i < p.interiors.len()
            invariant
                i <= p.interiors@.len(),
                self.ring_valid(p.exterior@),
                forall|j: int| 0 <= j < i ==> self.ring_valid((#[trigger] p.interiors@[j])@),
            decreases p.interiors@.len() - i,
        {
            if !self.check_ring(&p.interiors[i]) {
                return false;
            }
            i = i + 1;
        }
        true
    }

    fn check_range(&self, pos: u32, len: u32) -> (b: bool)
        ensures
            b == self.range_valid(pos, len),
    {
        if len > 0xffff_ffff - pos {
            return false;
        }
        let end: usize = (pos + len) as usize;
        if end > self.polygons.len() {
            return false;
        }
        let mut i: usize = pos as usize;
        while i < end
            invariant
                pos <= i <= end == pos + len,
                end <= self.polygons@.len(),
                forall|j: int| pos <= j < i ==> self.polygon_valid(#[trigger] self.polygons@[j]),
            decreases end - i,
        {
            if !self.check_polygon(&self.polygons[i]) {
                return false;
            }
            i = i + 1;
        }
        true
    }
}

/// The place of the first outline of the roof: a surface at level 0; the
/// number of geometries where there is none.
pub open spec fn outline_place(geometries: Seq<GeometryRef>, from: int) -> int
    decreases geometries.len() - from,
{
    if from < 0 || from >= geometries.len() {
        geometries.len() as int
    } else if geometries[from].lod == 0 && geometries[from].kind == GeometryKind::Surface {
        from
    } else {
        outline_place(geometries, from + 1)
    }
}

impl Building {
    /// The outline, where there is one.
    pub open spec fn outline(self) -> Option<GeometryRef> {
        let at = outline_place(self.geometries@, 0);
        if 0 <= at < self.geometries@.len() {
            Some(self.geometries@[at])
        } else {
            None
        }
    }

    /// What the outline names is there.
    pub open spec fn valid(self) -> bool {
        match self.outline() {
            Some(g) => self.store.range_valid(g.pos, g.len),
            None => true,
        }
    }

    fn find_outline(&self) -> (r: Option<GeometryRef>)
        ensures
            r == self.outline(),
    {
        let mut i: usize = 0;
        while i < self.geometries.len()
            invariant
                i <= self.geometries@.len(),
                outline_place(self.geometries@, 0) == outline_place(self.geometries@, i as int),
            decreases self.geometries@.len() - i,
        {
            let g = self.geometries[i];
            if g.lod == 0 && g.kind == GeometryKind::Surface {
                return Some(g);
            }
            i = i + 1;
        }
        None
    }

    /// Whether what the outline names is there.
    pub fn is_valid(&self) -> (b: bool)
        ensures
            b == self.valid(),
    {
        match self.find_outline() {
            Some(g) => self.store.check_range(g.pos, g.len),
            None => true,
        }
    }
}

// ---------------------------------------------------------------------------
// Rows
// ---------------------------------------------------------------------------

/// A building as it goes into a file.
#[derive(Debug, PartialEq)]
pub struct Row {
    pub building_id: Option<String>,
    /// Hardly any building has one.
    pub name: Option<String>,
    pub usage: Option<String>,
    pub class: Option<String>,
    pub height: Option<Real>,
    pub storeys: Option<i32>,
    /// The municipality. Archives are cut by mesh, so one holds the buildings
    /// of its neighbours too.
    pub city: Option<String>,
    /// The outline of the roof.
    pub geometry: Vec<Polygon>,
}

/// The view of a [`Row`].
#[verifier::ext_equal]
pub struct RowView {
    pub building_id: Option<Seq<char>>,
    pub name: Option<Seq<char>>,
    pub usage: Option<Seq<char>>,
    pub class: Option<Seq<char>>,
    pub height: Option<Real>,
    pub storeys: Option<i32>,
    pub city: Option<Seq<char>>,
    pub geometry: Seq<PolygonView>,
}

impl View for Row {
    type V = RowView;

    open spec fn view(&self) -> RowView {
        RowView {
            building_id: text::optional_view(self.building_id),
            name: text::optional_view(self.name),
            usage: text::optional_view(self.usage),
            class: text::optional_view(self.class),
            height: self.height,
            storeys: self.storeys,
            city: text::optional_view(self.city),
            geometry: geo::polygons_of(self.geometry@),
        }
    }
}

pub open spec fn rows_view(rows: Seq<Row>) -> Seq<RowView> {
    Seq::new(rows.len(), |i: int| rows[i]@)
}

/// A number of storeys that is known.
pub open spec fn spec_known_storeys(storeys: u64) -> Option<u64> {
    if storeys == UNKNOWN_SENTINEL {
        None
    } else {
        Some(storeys)
    }
}

pub fn known_storeys(storeys: u64) -> (r: Option<u64>)
    ensures
        r == spec_known_storeys(storeys),
{
    if storeys == UNKNOWN_SENTINEL {
        None
    } else {
        Some(storeys)
    }
}

/// A height that is known.
pub open spec fn spec_known_height(height: Real) -> Option<Real> {
    if height.bits == UNKNOWN_HEIGHT_BITS {
        None
    } else {
        Some(height)
    }
}

pub fn known_height(height: Real) -> (r: Option<Real>)
    ensures
        r == spec_known_height(height),
{
    if height.bits == UNKNOWN_HEIGHT_BITS {
        None
    } else {
        Some(height)
    }
}

/// The storeys that go into a row: known, and not more than an `i32` holds.
pub open spec fn storeys_of(storeys: Option<u64>) -> Option<i32> {
    match storeys {
        Some(s) => match spec_known_storeys(s) {
            Some(s) => if s <= i32::MAX {
                Some(s as i32)
            } else {
                None
            },
            None => None,
        },
        None => None,
    }
}

pub open spec fn height_of(height: Option<Real>) -> Option<Real> {
    match height {
        Some(h) => spec_known_height(h),
        None => None,
    }
}

/// The coordinates of a ring: longitude first, no elevation.
pub open spec fn ring_coords(vertices: Seq<Vertex>, ring: Seq<u32>) -> Seq<Coord> {
    Seq::new(
        ring.len(),
        |i: int| Coord { x: vertices[ring[i] as int].lon, y: vertices[ring[i] as int].lat },
    )
}

pub open spec fn polygon_of(vertices: Seq<Vertex>, p: IndexedPolygon) -> PolygonView {
    PolygonView {
        exterior: features::closed_ring(ring_coords(vertices, p.exterior@)),
        interiors: Seq::new(
            p.interiors@.len(),
            |i: int| features::closed_ring(ring_coords(vertices, p.interiors@[i]@)),
        ),
    }
}

/// The polygons of the store from `pos` on.
pub open spec fn polygons_at(store: GeometryStore, pos: u32, len: u32) -> Seq<PolygonView> {
    Seq::new(len as nat, |i: int| polygon_of(store.vertices@, store.polygons@[pos + i]))
}

pub open spec fn first_text(list: Seq<String>) -> Option<Seq<char>> {
    if list.len() > 0 {
        Some(list[0]@)
    } else {
        None
    }
}

/// The row of a building: nothing without an outline.
pub open spec fn row_of(b: Building) -> Option<RowView> {
    match b.outline() {
        None => None,
        Some(g) => if g.len == 0 {
            None
        } else {
            Some(
                RowView {
                    building_id: if b.ids@.len() > 0 {
                        text::optional_view(b.ids@[0].building_id)
                    } else {
                        None
                    },
                    name: first_text(b.names@),
                    usage: first_text(b.usages@),
                    class: text::optional_view(b.class),
                    height: height_of(b.measured_height),
                    storeys: storeys_of(b.storeys_above_ground),
                    city: if b.ids@.len() > 0 {
                        text::optional_view(b.ids@[0].city)
                    } else {
                        None
                    },
                    geometry: polygons_at(b.store, g.pos, g.len),
                },
            )
        },
    }
}

/// The rows of buildings, in order.
pub open spec fn rows_of(buildings: Seq<Building>) -> Seq<RowView>
    decreases buildings.len(),
{
    if buildings.len() == 0 {
        Seq::empty()
    } else {
        match row_of(buildings.last()) {
            Some(row) => rows_of(buildings.drop_last()).push(row),
            None => rows_of(buildings.drop_last()),
        }
    }
}

fn copy_first(list: &Vec<String>) -> (c: Option<String>)
    ensures
        text::optional_view(c) == first_text(list@),
{
    if list.len() > 0 {
        Some(list[0].clone())
    } else {
        None
    }
}

fn read_ring(store: &GeometryStore, ring: &Vec<u32>) -> (out: Vec<Coord>)
    requires
        store.ring_valid(ring@),
    ensures
        out@ == features::closed_ring(ring_coords(store.vertices@, ring@)),
{
    let ghost want = ring_coords(store.vertices@, ring@);
    let mut out: Vec<Coord> = Vec::new();
    let mut i: usize = 0;
    while i < ring.len()
        invariant
            i <= ring@.len(),
            store.ring_valid(ring@),
            want == ring_coords(store.vertices@, ring@),
            out@ == want.take(i as int),
        decreases ring@.len() - i,
    {
        assert(ring@[i as int] < store.vertices@.len());
        let vertex = store.vertices[ring[i] as usize];
        out.push(Coord { x: vertex.lon, y: vertex.lat });
        i = i + 1;
        assert(want.take(i as int) == want.take(i - 1).push(want[i - 1]));
    }
    assert(want.take(i as int) == want);
    close_ring(out)
}

fn read_polygon(store: &GeometryStore, p: &IndexedPolygon) -> (out: Polygon)
    requires
        store.polygon_valid(*p),
    ensures
        out@ == polygon_of(store.vertices@, *p),
{
    let exterior = read_ring(store, &p.exterior);
    let mut interiors: Vec<Vec<Coord>> = Vec::new();
    let mut i: usize = 0;
    while i < p.interiors.len()
        invariant
            i <= p.interiors@.len(),
            store.polygon_valid(*p),
            interiors@.len() == i,
            forall|j: int|
                0 <= j < i ==> (#[trigger] interiors@[j])@ == features::closed_ring(
                    ring_coords(store.vertices@, p.interiors@[j]@),
                ),
        decreases p.interiors@.len() - i,
    {
        assert(store.ring_valid(p.interiors@[i as int]@));
        interiors.push(read_ring(store, &p.interiors[i]));
        i = i + 1;
    }
    let out = Polygon { exterior, interiors };
    assert(out@.interiors =~= polygon_of(store.vertices@, *p).interiors);
    out
}

/// The row of a building.
pub fn build_row(b: &Building) -> (r: Option<Row>)
    requires
        b.valid(),
    ensures
        match r {
            Some(row) => row_of(*b) == Some(row@),
            None => row_of(*b) is None,
        },
{
    let outline = match b.find_outline() {
        Some(g) => g,
        None => {
            return None;
        },
    };
    if outline.len == 0 {
        return None;
    }
    let mut geometry: Vec<Polygon> = Vec::new();
    let mut i: u32 = 0;
    while i < outline.len
        invariant
            i <= outline.len,
            b.store.range_valid(outline.pos, outline.len),
            geometry@.len() == i,
            forall|j: int|
                0 <= j < i ==> (#[trigger] geometry@[j])@ == polygon_of(
                    b.store.vertices@,
                    b.store.polygons@[outline.pos + j],
                ),
        decreases outline.len - i,
    {
        let at: usize = (outline.pos + i) as usize;
        assert(b.store.polygon_valid(b.store.polygons@[at as int]));
        geometry.push(read_polygon(&b.store, &b.store.polygons[at]));
        i = i + 1;
    }
    assert(geo::polygons_of(geometry@) =~= polygons_at(b.store, outline.pos, outline.len));
    let (building_id, city) = if b.ids.len() > 0 {
        (copy_optional(&b.ids[0].building_id), copy_optional(&b.ids[0].city))
    } else {
        (None, None)
    };
    let height = match b.measured_height {
        Some(h) => known_height(h),
        None => None,
    };
    let storeys = match b.storeys_above_ground {
        Some(s) => match known_storeys(s) {
            Some(s) => if s <= 0x7fff_ffff {
                Some(s as i32)
            } else {
                None
            },
            None => None,
        },
        None => None,
    };
    let row = Row {
        building_id,
        name: copy_first(&b.names),
        usage: copy_first(&b.usages),
        class: copy_optional(&b.class),
        height,
        storeys,
        city,
        geometry,
    };
    Some(row)
}

/// The bounds of an outline.
pub fn multi_polygon_bbox(mp: &Vec<Polygon>) -> (b: Bounds)
    ensures
        b == geo::polygons_bounds(geo::polygons_of(mp@)),
{
    bounds_of_polygons(mp)
}

/// The bounds of rows together.
pub open spec fn rows_bounds(rows: Seq<RowView>) -> Bounds
    decreases rows.len(),
{
    if rows.len() == 0 {
        Bounds::spec_nothing()
    } else {
        rows_bounds(rows.drop_last()).spec_union(geo::polygons_bounds(rows.last().geometry))
    }
}

/// The bounds of rows together, by which a transformation is chosen.
pub fn bounds_of_rows(rows: &Vec<Row>) -> (b: Bounds)
    ensures
        b == rows_bounds(rows_view(rows@)),
{
    let ghost all = rows_view(rows@);
    let mut b = Bounds::nothing();
    let mut i: usize = 0;
    assert(all.take(0) == Seq::<RowView>::empty());
    while i < rows.len()
        invariant
            i <= rows@.len(),
            all == rows_view(rows@),
            b == rows_bounds(all.take(i as int)),
        decreases rows@.len() - i,
    {
        assert(all.take(i + 1).drop_last() == all.take(i as int));
        assert(all.take(i + 1).last() == rows@[i as int]@);
        b = b.union(&multi_polygon_bbox(&rows[i].geometry));
        i = i + 1;
    }
    assert(all.take(i as int) == all);
    b
}

/// A row was moved: its geometry, and nothing else.
pub open spec fn row_moved<F: Fn(&Vec<Coord>) -> Option<Vec<Coord>>>(
    transform: F,
    before: Row,
    after: Row,
) -> bool {
    &&& after@ == (RowView { geometry: after@.geometry, ..before@ })
    &&& transform::polygons_moved(transform, before.geometry@, after.geometry@)
}

/// Rows were moved up to one that could not be: that one is left without a
/// geometry, and those behind it are as they were.
pub open spec fn moved_up_to<F: Fn(&Vec<Coord>) -> Option<Vec<Coord>>>(
    transform: F,
    before: Seq<Row>,
    after: Seq<Row>,
    stop: int,
) -> bool {
    &&& 0 <= stop <= before.len()
    &&& after.len() == before.len()
    &&& forall|i: int|
        #![trigger after[i]]
        0 <= i < stop ==> row_moved(transform, before[i], after[i])
    &&& stop < before.len() ==> transform::polygons_refused(transform, before[stop].geometry@)
        && after[stop]@ == (RowView { geometry: Seq::empty(), ..before[stop]@ })
    &&& forall|i: int| #![trigger after[i]] stop < i < before.len() ==> after[i] == before[i]
}

/// Moves rows into WGS84. `transform` moves the points of a line there from
/// [`SOURCE_EPSG`].
pub fn to_wgs84<F: Fn(&Vec<Coord>) -> Option<Vec<Coord>>>(
    rows: &mut Vec<Row>,
    transform: F,
) -> (r: Result<(), TransformError>)
    requires
        transform::total(transform),
    ensures
        match r {
            Ok(_) => moved_up_to(transform, old(rows)@, final(rows)@, old(rows)@.len() as int),
            Err(_) => exists|stop: int|
                0 <= stop < old(rows)@.len() && #[trigger] moved_up_to(
                    transform,
                    old(rows)@,
                    final(rows)@,
                    stop,
                ),
        },
{
    let ghost before = rows@;
    let mut i: usize = 0;
    while i < rows.len()
        invariant
            i <= rows@.len(),
            before == old(rows)@,
            rows@.len() == before.len(),
            transform::total(transform),
            forall|j: int|
                #![trigger rows@[j]]
                0 <= j < i ==> row_moved(transform, before[j], rows@[j]),
            forall|j: int| #![trigger rows@[j]] i <= j < before.len() ==> rows@[j] == before[j],
        decreases rows@.len() - i,
    {
        assert(rows@[i as int] == before[i as int]);
        match transform_polygons(&rows[i].geometry, &transform) {
            Ok(geometry) => {
                rows[i].geometry = geometry;
            },
            Err(e) => {
                rows[i].geometry = Vec::new();
                proof {
                    assert(rows@[i as int]@.geometry =~= Seq::empty());
                    assert(moved_up_to(transform, before, rows@, i as int));
                }
                return Err(e);
            },
        }
        i = i + 1;
    }
    Ok(())
}

/// No row holds a number that stands for an unknown one.
pub proof fn law_unknown_numbers_are_dropped(b: Building)
    requires
        row_of(b) is Some,
    ensures
        row_of(b)->0.storeys != Some(9999i32),
        row_of(b)->0.height is Some ==> row_of(b)->0.height->0.bits != UNKNOWN_HEIGHT_BITS,
        b.storeys_above_ground == Some(UNKNOWN_SENTINEL) ==> row_of(b)->0.storeys is None,
        b.measured_height is Some && b.measured_height->0.bits == UNKNOWN_HEIGHT_BITS
            ==> row_of(b)->0.height is None,
{
}

/// The geometry at `i` is the first surface at level 0.
pub open spec fn first_roof(geometries: Seq<GeometryRef>, i: int) -> bool {
    &&& 0 <= i < geometries.len()
    &&& geometries[i].lod == 0 && geometries[i].kind == GeometryKind::Surface
    &&& forall|j: int|
        #![trigger geometries[j]]
        0 <= j < i ==> geometries[j].lod != 0 || geometries[j].kind != GeometryKind::Surface
}

/// The first surface at level 0 is there, and has a polygon.
pub open spec fn drawn(b: Building) -> bool {
    exists|i: int| #[trigger] first_roof(b.geometries@, i) && b.geometries@[i].len > 0
}

proof fn lemma_outline_place(geometries: Seq<GeometryRef>, from: int)
    requires
        0 <= from <= geometries.len(),
    ensures
        from <= outline_place(geometries, from) <= geometries.len(),
        forall|j: int|
            #![trigger geometries[j]]
            from <= j < outline_place(geometries, from) ==> geometries[j].lod != 0
                || geometries[j].kind != GeometryKind::Surface,
        outline_place(geometries, from) < geometries.len() ==> geometries[outline_place(
            geometries,
            from,
        )].lod == 0 && geometries[outline_place(geometries, from)].kind == GeometryKind::Surface,
    decreases geometries.len() - from,
{
    if from < geometries.len() && !(geometries[from].lod == 0 && geometries[from].kind
        == GeometryKind::Surface) {
        lemma_outline_place(geometries, from + 1);
    }
}

/// The outline is the first surface at level 0, and there is none only where no
/// geometry is such a surface.
pub proof fn law_outline_is_the_first_roof(b: Building)
    ensures
        b.outline() is None <==> forall|j: int|
            #![trigger b.geometries@[j]]
            0 <= j < b.geometries@.len() ==> b.geometries@[j].lod != 0 || b.geometries@[j].kind
                != GeometryKind::Surface,
        forall|i: int|
            #[trigger] first_roof(b.geometries@, i) ==> b.outline() == Some(b.geometries@[i]),
{
    let all = b.geometries@;
    let at = outline_place(all, 0);
    lemma_outline_place(all, 0);
    assert forall|i: int| #[trigger] first_roof(all, i) implies b.outline() == Some(all[i]) by {
        if at < i {
            assert(all[at].lod == 0);
        } else if i < at {
            assert(all[i].lod == 0);
        }
    }
    if at < all.len() {
        assert(all[at].lod == 0 && all[at].kind == GeometryKind::Surface);
    }
}

/// A building has a row where its first surface at level 0 has a polygon, and
/// only there.
pub proof fn law_drawn_buildings_have_a_row(b: Building)
    ensures
        row_of(b) is Some <==> drawn(b),
{
    law_outline_is_the_first_roof(b);
    lemma_outline_place(b.geometries@, 0);
    let at = outline_place(b.geometries@, 0);
    if b.outline() is Some {
        assert(first_roof(b.geometries@, at));
    }
}

/// A row says of its building: who it is and in which city, the first of its
/// names and of its uses, its class, and its height and storeys unless they are
/// the number that stands for an unknown one (-9999 and 9999).
pub proof fn law_rows_tell_of_their_building(b: Building)
    requires
        row_of(b) is Some,
    ensures
        b.ids@.len() > 0 ==> row_of(b)->0.building_id == text::optional_view(
            b.ids@[0].building_id,
        ) && row_of(b)->0.city == text::optional_view(b.ids@[0].city),
        b.ids@.len() == 0 ==> row_of(b)->0.building_id is None && row_of(b)->0.city is None,
        b.names@.len() > 0 ==> row_of(b)->0.name == Some(b.names@[0]@),
        b.names@.len() == 0 ==> row_of(b)->0.name is None,
        b.usages@.len() > 0 ==> row_of(b)->0.usage == Some(b.usages@[0]@),
        b.usages@.len() == 0 ==> row_of(b)->0.usage is None,
        row_of(b)->0.class == text::optional_view(b.class),
        b.measured_height is Some && b.measured_height->0.bits != 0xc0c3_8780_0000_0000u64
            ==> row_of(b)->0.height == b.measured_height,
        b.measured_height is Some && b.measured_height->0.bits == 0xc0c3_8780_0000_0000u64
            ==> row_of(b)->0.height is None,
        b.measured_height is None ==> row_of(b)->0.height is None,
        b.storeys_above_ground is Some && b.storeys_above_ground->0 != 9999
            && b.storeys_above_ground->0 <= 0x7fff_ffff ==> row_of(b)->0.storeys is Some && row_of(
            b,
        )->0.storeys->0 == b.storeys_above_ground->0,
        b.storeys_above_ground is None || b.storeys_above_ground->0 == 9999
            || b.storeys_above_ground->0 > 0x7fff_ffff ==> row_of(b)->0.storeys is None,
{
}

/// A row draws the first surface at level 0: as many polygons, each with as
/// many holes, and each ring through the vertices that it names, by longitude
/// and latitude. At most the first of them is repeated at the end.
pub proof fn law_rows_draw_the_roof(b: Building, at: int, k: int)
    requires
        first_roof(b.geometries@, at),
        0 <= k < b.geometries@[at].len,
    ensures
        row_of(b) is Some,
        row_of(b)->0.geometry.len() == b.geometries@[at].len,
        ring_follows(
            row_of(b)->0.geometry[k].exterior,
            b.store.vertices@,
            b.store.polygons@[b.geometries@[at].pos + k].exterior@,
        ),
        row_of(b)->0.geometry[k].interiors.len()
            == b.store.polygons@[b.geometries@[at].pos + k].interiors@.len(),
        forall|r: int|
            #![trigger row_of(b)->0.geometry[k].interiors[r]]
            0 <= r < row_of(b)->0.geometry[k].interiors.len() ==> ring_follows(
                row_of(b)->0.geometry[k].interiors[r],
                b.store.vertices@,
                b.store.polygons@[b.geometries@[at].pos + k].interiors@[r]@,
            ),
{
    law_outline_is_the_first_roof(b);
}

/// A ring goes through the vertices that a list names, in order; at most one
/// point more, the first again, follows.
pub open spec fn ring_follows(ring: Seq<Coord>, vertices: Seq<Vertex>, named: Seq<u32>) -> bool {
    &&& named.len() <= ring.len() <= named.len() + 1
    &&& forall|j: int|
        #![trigger ring[j]]
        0 <= j < named.len() ==> ring[j].x == vertices[named[j] as int].lon && ring[j].y
            == vertices[named[j] as int].lat
    &&& ring.len() > named.len() ==> ring.last() == ring[0]
}

/// The rows of two lists of buildings, one behind the other, are those of the
/// first and then those of the second. One building gives its row, or nothing.
pub proof fn law_rows_add_up(a: Seq<Building>, b: Seq<Building>)
    ensures
        rows_of(a + b) == rows_of(a) + rows_of(b),
        b.len() == 1 && drawn(b[0]) ==> rows_of(b) == seq![row_of(b[0])->0],
        b.len() == 1 && !drawn(b[0]) ==> rows_of(b).len() == 0,
    decreases b.len(),
{
    if b.len() == 0 {
        assert(a + b =~= a);
        assert(rows_of(a) + rows_of(b) =~= rows_of(a));
    } else {
        law_rows_add_up(a, b.drop_last());
        law_drawn_buildings_have_a_row(b.last());
        assert((a + b).drop_last() =~= a + b.drop_last());
        assert((a + b).last() == b.last());
        if b.len() == 1 {
            assert(rows_of(b.drop_last()) =~= Seq::<RowView>::empty());
        }
        if row_of(b.last()) is Some {
            let row = row_of(b.last())->0;
            assert(rows_of(a) + rows_of(b.drop_last()).push(row) =~= (rows_of(a) + rows_of(
                b.drop_last(),
            )).push(row));
            if b.len() == 1 {
                assert(rows_of(b) =~= seq![row_of(b[0])->0]);
            }
        }
    }
}

/// Every building whose roof is drawn gives exactly one row, in order; the
/// others give none.
pub proof fn law_one_row_for_each_drawn_building(buildings: Seq<Building>)
    ensures
        rows_of(buildings).len() == buildings.filter(|b: Building| drawn(b)).len(),
        forall|k: int|
            #![trigger rows_of(buildings)[k]]
            0 <= k < rows_of(buildings).len() ==> row_of(
                buildings.filter(|b: Building| drawn(b))[k],
            ) == Some(rows_of(buildings)[k]),
    decreases buildings.len(),
{
    reveal(Seq::filter);
    if buildings.len() > 0 {
        law_one_row_for_each_drawn_building(buildings.drop_last());
        law_drawn_buildings_have_a_row(buildings.last());
    }
}

// ---------------------------------------------------------------------------
// Archives
// ---------------------------------------------------------------------------

/// A code list of an archive.
pub open spec fn names_codelist(name: Seq<char>) -> bool {
    text::has_prefix(name, "codelists/"@) && text::has_suffix(name, ".xml"@)
}

/// A file with buildings of an archive.
pub open spec fn names_buildings(name: Seq<char>) -> bool {
    text::has_prefix(name, "udx/bldg/"@) && text::has_suffix(name, ".gml"@)
}

fn is_codelist(name: &str) -> (b: bool)
    ensures
        b == names_codelist(name@),
{
    starts_with(name, "codelists/") && ends_with(name, ".xml")
}

/// Whether an entry of an archive holds buildings.
pub fn is_buildings(name: &str) -> (b: bool)
    ensures
        b == names_buildings(name@),
{
    starts_with(name, "udx/bldg/") && ends_with(name, ".gml")
}

/// What to do with an element at the top of a file with buildings.
#[derive(Debug, Clone, Copy, PartialEq, Eq, Structural)]
pub enum Element {
    /// It may be a building: read it.
    Member,
    /// Extents and textures are of no use here. Textures are most of a file.
    Ignored,
}

/// An element that does not belong at the top of a file with buildings.
#[derive(Debug, PartialEq)]
pub struct UnexpectedElement {
    pub path: String,
}

impl UnexpectedElement {
    pub fn to_string(&self) -> (text: String)
        ensures
            text@ == "想定外の要素: "@ + self.path@,
    {
        let mut text = "想定外の要素: ".to_string();
        text.append(self.path.as_str());
        text
    }
}

/// What an element at the top of a file with buildings is for, by its path.
pub open spec fn element_of(path: Seq<char>) -> Option<Element> {
    if path == "core:cityObjectMember"@ {
        Some(Element::Member)
    } else if path == "gml:boundedBy"@ || path == "app:appearanceMember"@ {
        Some(Element::Ignored)
    } else {
        None
    }
}

/// Tells what to do with an element at the top of a file with buildings.
pub fn element_at(path: &str) -> (r: Result<Element, UnexpectedElement>)
    ensures
        match r {
            Ok(e) => element_of(path@) == Some(e),
            Err(e) => element_of(path@) is None && e.path@ == path@,
        },
{
    if same_text(path, "core:cityObjectMember") {
        Ok(Element::Member)
    } else if same_text(path, "gml:boundedBy") || same_text(path, "app:appearanceMember") {
        Ok(Element::Ignored)
    } else {
        Err(UnexpectedElement { path: path.to_string() })
    }
}

/// Why an archive gives no rows.
#[derive(Debug, Clone, Copy, PartialEq, Eq, Structural)]
pub enum ArchiveError {
    /// No file with buildings.
    NoBuildings,
    /// No code list, so that codes would stay codes.
    NoCodelists,
    /// Not one building could be read.
    NoRows,
}

impl ArchiveError {
    pub open spec fn spec_text(self, label: Seq<char>) -> Seq<char> {
        match self {
            ArchiveError::NoBuildings => "建物のGMLが1本もありません: "@ + label,
            ArchiveError::NoCodelists =>
                "コードリストがありません (用途が解決できない): "@ + label,
            ArchiveError::NoRows => "建物が1件も読めませんでした: "@ + label,
        }
    }

    pub fn to_text(&self, label: &str) -> (text: String)
        ensures
            text@ == self.spec_text(label@),
    {
        let mut text = match self {
            ArchiveError::NoBuildings => "建物のGMLが1本もありません: ".to_string(),
            ArchiveError::NoCodelists =>
                "コードリストがありません (用途が解決できない): ".to_string(),
            ArchiveError::NoRows => "建物が1件も読めませんでした: ".to_string(),
        };
        text.append(label);
        text
    }
}

/// The names among the first `n` that are code lists, in order.
pub open spec fn codelists_among(names: Seq<Seq<char>>) -> Seq<Seq<char>>
    decreases names.len(),
{
    if names.len() == 0 {
        Seq::empty()
    } else if names_codelist(names.last()) {
        codelists_among(names.drop_last()).push(names.last())
    } else {
        codelists_among(names.drop_last())
    }
}

/// The names that hold buildings, in order.
pub open spec fn buildings_among(names: Seq<Seq<char>>) -> Seq<Seq<char>>
    decreases names.len(),
{
    if names.len() == 0 {
        Seq::empty()
    } else if !names_codelist(names.last()) && names_buildings(names.last()) {
        buildings_among(names.drop_last()).push(names.last())
    } else {
        buildings_among(names.drop_last())
    }
}

/// What is to be done next with an archive.
#[derive(Debug, PartialEq)]
pub enum Step {
    /// Read this entry, a code list.
    Codelist(String),
    /// Read the buildings of this entry.
    Buildings(String),
    /// Nothing: all rows are there.
    Done,
}

#[verifier::ext_equal]
pub enum StepView {
    Codelist(Seq<char>),
    Buildings(Seq<char>),
    Done,
}

impl View for Step {
    type V = StepView;

    open spec fn view(&self) -> StepView {
        match self {
            Step::Codelist(name) => StepView::Codelist(name@),
            Step::Buildings(name) => StepView::Buildings(name@),
            Step::Done => StepView::Done,
        }
    }
}

/// An archive that is being read, entry by entry: first the code lists, then
/// the buildings in the order of their names. It never has to be opened twice.
pub struct ArchiveReader {
    codelist_names: Vec<String>,
    building_names: Vec<String>,
    entries: Vec<(String, Vec<u8>)>,
    done: usize,
    rows: Vec<Row>,
}

/// The state of an [`ArchiveReader`].
#[verifier::ext_equal]
pub struct ReaderView {
    pub codelist_names: Seq<Seq<char>>,
    pub building_names: Seq<Seq<char>>,
    /// The code lists that have been read.
    pub entries: Seq<(String, Vec<u8>)>,
    /// How many entries with buildings have been read.
    pub done: nat,
    pub rows: Seq<RowView>,
}

impl ReaderView {
    /// What comes next.
    pub open spec fn step(self) -> Result<StepView, ArchiveError> {
        if self.entries.len() < self.codelist_names.len() {
            Ok(StepView::Codelist(self.codelist_names[self.entries.len() as int]))
        } else if self.codelist_names.len() == 0 {
            Err(ArchiveError::NoCodelists)
        } else if self.done < self.building_names.len() {
            Ok(StepView::Buildings(self.building_names[self.done as int]))
        } else if self.rows.len() == 0 {
            Err(ArchiveError::NoRows)
        } else {
            Ok(StepView::Done)
        }
    }
}

impl ArchiveReader {
    pub closed spec fn state(self) -> ReaderView {
        ReaderView {
            codelist_names: text::texts(self.codelist_names@),
            building_names: text::texts(self.building_names@),
            entries: self.entries@,
            done: self.done as nat,
            rows: rows_view(self.rows@),
        }
    }

    pub closed spec fn wf(self) -> bool {
        &&& self.entries@.len() <= self.codelist_names@.len()
        &&& self.done <= self.building_names@.len()
    }

    /// Begins with the names of the entries.
    pub fn new(names: &Vec<String>) -> (r: Result<ArchiveReader, ArchiveError>)
        ensures
            match r {
                Ok(reader) => {
                    let state = reader.state();
                    &&& reader.wf()
                    &&& buildings_among(text::texts(names@)).len() > 0
                    &&& state.codelist_names == codelists_among(text::texts(names@))
                    &&& text::in_order(state.building_names)
                    &&& state.building_names.to_multiset() == buildings_among(
                        text::texts(names@),
                    ).to_multiset()
                    &&& state.entries.len() == 0
                    &&& state.done == 0
                    &&& state.rows.len() == 0
                },
                Err(e) => buildings_among(text::texts(names@)).len() == 0 && e
                    == ArchiveError::NoBuildings,
            },
    {
        let ghost all = text::texts(names@);
        let mut codelist_names: Vec<String> = Vec::new();
        let mut found: Vec<String> = Vec::new();
        let mut i: usize = 0;
        proof {
            assert(all.take(0) == Seq::<Seq<char>>::empty());
            assert(text::texts(codelist_names@) == Seq::<Seq<char>>::empty());
            assert(text::texts(found@) == Seq::<Seq<char>>::empty());
        }
        while i < names.len()
            invariant
                i <= names@.len(),
                all == text::texts(names@),
                text::texts(codelist_names@) == codelists_among(all.take(i as int)),
                text::texts(found@) == buildings_among(all.take(i as int)),
            decreases names@.len() - i,
        {
            assert(all.take(i + 1).drop_last() == all.take(i as int));
            assert(all.take(i + 1).last() == names@[i as int]@);
            let ghost lists = text::texts(codelist_names@);
            let ghost files = text::texts(found@);
            if is_codelist(names[i].as_str()) {
                codelist_names.push(names[i].clone());
                assert(text::texts(codelist_names@) =~= lists.push(names@[i as int]@));
            } else if is_buildings(names[i].as_str()) {
                found.push(names[i].clone());
                assert(text::texts(found@) =~= files.push(names@[i as int]@));
            }
            i = i + 1;
        }
        assert(all.take(i as int) == all);
        if found.len() == 0 {
            return Err(ArchiveError::NoBuildings);
        }
        let building_names = sort_texts(&found);
        let rows: Vec<Row> = Vec::new();
        Ok(ArchiveReader { codelist_names, building_names, entries: Vec::new(), done: 0, rows })
    }

    /// What is to be done next.
    pub fn next(&self) -> (r: Result<Step, ArchiveError>)
        requires
            self.wf(),
        ensures
            match r {
                Ok(step) => self.state().step() == Ok::<StepView, ArchiveError>(step@),
                Err(e) => self.state().step() == Err::<StepView, ArchiveError>(e),
            },
    {
        if self.entries.len() < self.codelist_names.len() {
            Ok(Step::Codelist(self.codelist_names[self.entries.len()].clone()))
        } else if self.codelist_names.len() == 0 {
            Err(ArchiveError::NoCodelists)
        } else if self.done < self.building_names.len() {
            Ok(Step::Buildings(self.building_names[self.done].clone()))
        } else if self.rows.len() == 0 {
            Err(ArchiveError::NoRows)
        } else {
            Ok(Step::Done)
        }
    }

    /// Takes in the content of the code list that comes next.
    pub fn take_codelist(&mut self, content: Vec<u8>)
        requires
            old(self).wf(),
            old(self).state().step() is Ok,
            old(self).state().step()->Ok_0 is Codelist,
        ensures
            final(self).wf(),
            final(self).state().entries.len() == old(self).state().entries.len() + 1,
            final(self).state().entries.drop_last() == old(self).state().entries,
            final(self).state().entries.last().0@ == old(self).state().step()->Ok_0->Codelist_0,
            final(self).state().entries.last().1@ == content@,
            final(self).state() == (ReaderView {
                entries: final(self).state().entries,
                ..old(self).state()
            }),
    {
        let name = self.codelist_names[self.entries.len()].clone();
        self.entries.push((name, content));
    }

    /// The code lists that have been read.
    pub fn codelists(&self) -> (lists: Codelists)
        ensures
            lists.wf(),
            lists@ == codelists::lists_of(self.state().entries),
    {
        let entries = copy_entries(&self.entries);
        Codelists::new(entries)
    }

    /// Takes in the buildings of the entry that comes next.
    pub fn take_buildings(&mut self, buildings: &Vec<Building>)
        requires
            old(self).wf(),
            old(self).state().step() is Ok,
            old(self).state().step()->Ok_0 is Buildings,
            forall|i: int| 0 <= i < buildings@.len() ==> (#[trigger] buildings@[i]).valid(),
        ensures
            final(self).wf(),
            final(self).state() == (ReaderView {
                done: old(self).state().done + 1,
                rows: old(self).state().rows + rows_of(buildings@),
                ..old(self).state()
            }),
    {
        let ghost had = rows_view(self.rows@);
        let mut i: usize = 0;
        proof {
            assert(buildings@.take(0) == Seq::<Building>::empty());
            assert(had + Seq::<RowView>::empty() =~= had);
        }
        while i < buildings.len()
            invariant
                i <= buildings@.len(),
                forall|i: int| 0 <= i < buildings@.len() ==> (#[trigger] buildings@[i]).valid(),
                rows_view(self.rows@) == had + rows_of(buildings@.take(i as int)),
                self.codelist_names == old(self).codelist_names,
                self.building_names == old(self).building_names,
                self.entries == old(self).entries,
                self.done == old(self).done,
                self.done < self.building_names.len(),
            decreases buildings@.len() - i,
        {
            assert(buildings@.take(i + 1).drop_last() == buildings@.take(i as int));
            assert(buildings@.take(i + 1).last() == buildings@[i as int]);
            let ghost before = rows_view(self.rows@);
            match build_row(&buildings[i]) {
                Some(row) => {
                    let ghost view = row@;
                    self.rows.push(row);
                    assert(rows_view(self.rows@) =~= before.push(view));
                    assert(had + rows_of(buildings@.take(i as int)).push(view) =~= before.push(view));
                },
                None => {},
            }
            i = i + 1;
        }
        assert(buildings@.take(i as int) == buildings@);
        self.done = self.done + 1;
    }

    /// The rows, once all is done.
    pub fn into_rows(self) -> (rows: Vec<Row>)
        ensures
            rows_view(rows@) == self.state().rows,
    {
        self.rows
    }
}

/// Every code list of an archive can be found by the name of its file, so an
/// archive that names one has a code list.
pub proof fn law_codelists_have_names(name: Seq<char>)
    requires
        names_codelist(name),
    ensures
        codelists::file_name_of(name) is Some,
{
    reveal_strlit(".xml");
    text::lemma_last_position(name, '/');
    assert(".xml"@.len() == 4 && ".xml"@[3] == 'l');
    assert(name.subrange(name.len() - 4, name.len() as int)[3] == name[name.len() - 1]);
}

proof fn lemma_kinds_differ(name: Seq<char>)
    ensures
        !(text::has_prefix(name, "codelists/"@) && text::has_prefix(name, "udx/bldg/"@)),
{
    reveal_strlit("codelists/");
    reveal_strlit("udx/bldg/");
    assert("codelists/"@[0] == 'c' && "udx/bldg/"@[0] == 'u');
    if text::has_prefix(name, "codelists/"@) && text::has_prefix(name, "udx/bldg/"@) {
        assert(name.subrange(0, "codelists/"@.len() as int)[0] == name[0]);
        assert(name.subrange(0, "udx/bldg/"@.len() as int)[0] == name[0]);
    }
}

/// Of the entries of an archive, every XML file under `codelists` is a code
/// list and every GML file under `udx/bldg` holds buildings, in the order of
/// the archive; the others are neither.
pub proof fn law_entries_go_by_their_place(names: Seq<Seq<char>>)
    ensures
        codelists_among(names) == names.filter(
            |n: Seq<char>| text::has_prefix(n, "codelists/"@) && text::has_suffix(n, ".xml"@),
        ),
        buildings_among(names) == names.filter(
            |n: Seq<char>| text::has_prefix(n, "udx/bldg/"@) && text::has_suffix(n, ".gml"@),
        ),
    decreases names.len(),
{
    reveal(Seq::filter);
    if names.len() > 0 {
        law_entries_go_by_their_place(names.drop_last());
        lemma_kinds_differ(names.last());
    } else {
        assert(names =~= Seq::<Seq<char>>::empty());
    }
}

/// The code lists are read first, one after another, then the files with
/// buildings, one after another. An archive without code lists, and one whose
/// buildings give no row, is an error; otherwise reading ends once every one
/// of them has been read.
pub proof fn law_everything_is_read_in_turn(s: ReaderView)
    requires
        s.entries.len() <= s.codelist_names.len(),
        s.done <= s.building_names.len(),
    ensures
        s.step() == Ok::<StepView, ArchiveError>(StepView::Done) <==> s.entries.len()
            == s.codelist_names.len() && s.entries.len() > 0 && s.done == s.building_names.len()
            && s.rows.len() > 0,
        s.entries.len() < s.codelist_names.len() ==> s.step() == Ok::<StepView, ArchiveError>(
            StepView::Codelist(s.codelist_names[s.entries.len() as int]),
        ),
        s.entries.len() == s.codelist_names.len() && s.entries.len() > 0 && s.done
            < s.building_names.len() ==> s.step() == Ok::<StepView, ArchiveError>(
            StepView::Buildings(s.building_names[s.done as int]),
        ),
        s.step() == Err::<StepView, ArchiveError>(ArchiveError::NoCodelists)
            <==> s.codelist_names.len() == 0,
        s.step() == Err::<StepView, ArchiveError>(ArchiveError::NoRows) <==> s.entries.len()
            == s.codelist_names.len() && s.entries.len() > 0 && s.done == s.building_names.len()
            && s.rows.len() == 0,
{
}

fn copy_entries(entries: &Vec<(String, Vec<u8>)>) -> (copy: Vec<(String, Vec<u8>)>)
    ensures
        copy@.len() == entries@.len(),
        codelists::lists_of(copy@) == codelists::lists_of(entries@),
{
    let mut copy: Vec<(String, Vec<u8>)> = Vec::new();
    let mut i: usize = 0;
    proof {
        assert(entries@.take(0) == Seq::<(String, Vec<u8>)>::empty());
        assert(copy@ == Seq::<(String, Vec<u8>)>::empty());
    }
    while i < entries.len()
        invariant
            i <= entries@.len(),
            copy@.len() == i,
            codelists::lists_of(copy@) == codelists::lists_of(entries@.take(i as int)),
        decreases entries@.len() - i,
    {
        assert(entries@.take(i + 1).drop_last() == entries@.take(i as int));
        let ghost before = copy@;
        let content = codelists::copy_bytes(&entries[i].1);
        copy.push((entries[i].0.clone(), content));
        assert(copy@.drop_last() == before);
        i = i + 1;
    }
    assert(entries@.take(i as int) == entries@);
    copy
}

// ---------------------------------------------------------------------------
// Files
// ---------------------------------------------------------------------------

/// The columns hold what the rows say.
pub open spec fn columns_hold(columns: Seq<Column>, all: Seq<RowView>) -> bool {
    let n = all.len();
    &&& columns.len() == 7
    &&& columns[0].holds_optional_texts(
        "building_id"@,
        Seq::new(n, |i: int| all[i].building_id),
    )
    &&& columns[1].holds_optional_texts("name"@, Seq::new(n, |i: int| all[i].name))
    &&& columns[2].holds_optional_texts("usage"@, Seq::new(n, |i: int| all[i].usage))
    &&& columns[3].holds_optional_texts("class"@, Seq::new(n, |i: int| all[i].class))
    &&& columns[4].holds_optional_texts("city"@, Seq::new(n, |i: int| all[i].city))
    &&& columns[5].holds_reals("height"@, Seq::new(n, |i: int| all[i].height))
    &&& columns[6].holds_integers("storeys"@, Seq::new(n, |i: int| all[i].storeys))
}

/// The columns of a file of rows.
pub fn columns_of(rows: &Vec<Row>) -> (columns: Vec<Column>)
    ensures
        columns_hold(columns@, rows_view(rows@)),
{
    let ghost all = rows_view(rows@);
    let mut building_id: Vec<Option<String>> = Vec::new();
    let mut name: Vec<Option<String>> = Vec::new();
    let mut usage: Vec<Option<String>> = Vec::new();
    let mut class: Vec<Option<String>> = Vec::new();
    let mut city: Vec<Option<String>> = Vec::new();
    let mut height: Vec<Option<Real>> = Vec::new();
    let mut storeys: Vec<Option<i32>> = Vec::new();
    let mut i: usize = 0;
    while i < rows.len()
        invariant
            i <= rows@.len(),
            all == rows_view(rows@),
            building_id@.len() == i,
            name@.len() == i,
            usage@.len() == i,
            class@.len() == i,
            city@.len() == i,
            height@.len() == i,
            storeys@.len() == i,
            forall|k: int|
                0 <= k < i ==> text::optional_view(#[trigger] building_id@[k]) == all[k].building_id,
            forall|k: int| 0 <= k < i ==> text::optional_view(#[trigger] name@[k]) == all[k].name,
            forall|k: int| 0 <= k < i ==> text::optional_view(#[trigger] usage@[k]) == all[k].usage,
            forall|k: int| 0 <= k < i ==> text::optional_view(#[trigger] class@[k]) == all[k].class,
            forall|k: int| 0 <= k < i ==> text::optional_view(#[trigger] city@[k]) == all[k].city,
            forall|k: int| 0 <= k < i ==> #[trigger] height@[k] == all[k].height,
            forall|k: int| 0 <= k < i ==> #[trigger] storeys@[k] == all[k].storeys,
        decreases rows@.len() - i,
    {
        let row = &rows[i];
        building_id.push(copy_optional(&row.building_id));
        name.push(copy_optional(&row.name));
        usage.push(copy_optional(&row.usage));
        class.push(copy_optional(&row.class));
        city.push(copy_optional(&row.city));
        height.push(row.height);
        storeys.push(row.storeys);
        i = i + 1;
    }
    proof {
        let n = all.len();
        assert(geoparquet::optional_texts(building_id@) =~= Seq::new(
            n,
            |i: int| all[i].building_id,
        ));
        assert(geoparquet::optional_texts(name@) =~= Seq::new(n, |i: int| all[i].name));
        assert(geoparquet::optional_texts(usage@) =~= Seq::new(n, |i: int| all[i].usage));
        assert(geoparquet::optional_texts(class@) =~= Seq::new(n, |i: int| all[i].class));
        assert(geoparquet::optional_texts(city@) =~= Seq::new(n, |i: int| all[i].city));
        assert(height@ =~= Seq::new(n, |i: int| all[i].height));
        assert(storeys@ =~= Seq::new(n, |i: int| all[i].storeys));
    }
    let mut columns: Vec<Column> = Vec::new();
    columns.push(utf8_nullable_column("building_id", building_id));
    columns.push(utf8_nullable_column("name", name));
    columns.push(utf8_nullable_column("usage", usage));
    columns.push(utf8_nullable_column("class", class));
    columns.push(utf8_nullable_column("city", city));
    columns.push(f64_nullable_column("height", height));
    columns.push(i32_nullable_column("storeys", storeys));
    columns
}

/// The geometries of a file of rows.
pub open spec fn shapes_of(all: Seq<RowView>) -> Seq<ShapeView> {
    Seq::new(all.len(), |i: int| ShapeView::MultiPolygon(all[i].geometry))
}

/// The file that rows in WGS84 go into. `via` is the address of the archive that they come
/// from, where it is known.
pub fn table_of(rows: &Vec<Row>, via: Option<String>) -> (r: Result<Table, TableError>)
    ensures
        match r {
            Ok(t) => columns_hold(t.columns@, rows_view(rows@)) && t.is_of(
                shapes_of(rows_view(rows@)),
                "MultiPolygon"@,
                (Provenance { via, vintage: None }),
            ),
            Err(e) => e == TableError::Geometry && geoparquet::unencodable(
                shapes_of(rows_view(rows@)),
            ),
        },
{
    let ghost want = shapes_of(rows_view(rows@));
    let mut shapes: Vec<Shape> = Vec::new();
    let mut i: usize = 0;
    while i < rows.len()
        invariant
            i <= rows@.len(),
            want == shapes_of(rows_view(rows@)),
            shapes@.len() == i,
            forall|j: int| 0 <= j < i ==> (#[trigger] shapes@[j])@ == want[j],
        decreases rows@.len() - i,
    {
        shapes.push(Shape::MultiPolygon(copy_polygons(&rows[i].geometry)));
        i = i + 1;
    }
    assert(geoparquet::shape_views(shapes@) =~= want);
    let provenance = Provenance { via, vintage: None };
    table_of_shapes(columns_of(rows), &shapes, "MultiPolygon", &provenance)
}

/// A file of buildings has one row for each, in order, and its columns say
/// under their names what the buildings say.
pub proof fn law_columns_tell_of_buildings(columns: Seq<Column>, rows: Seq<Row>, i: int)
    requires
        columns_hold(columns, rows_view(rows)),
        0 <= i < rows.len(),
    ensures
        columns.len() == 7,
        forall|k: int| 0 <= k < 7 ==> (#[trigger] columns[k]).height() == rows.len(),
        columns[0].name@ == "building_id"@ && columns[0].text_at(i) == text::optional_view(
            rows[i].building_id,
        ),
        columns[1].name@ == "name"@ && columns[1].text_at(i) == text::optional_view(rows[i].name),
        columns[2].name@ == "usage"@ && columns[2].text_at(i) == text::optional_view(
            rows[i].usage,
        ),
        columns[3].name@ == "class"@ && columns[3].text_at(i) == text::optional_view(
            rows[i].class,
        ),
        columns[4].name@ == "city"@ && columns[4].text_at(i) == text::optional_view(rows[i].city),
        columns[5].name@ == "height"@ && columns[5].real_at(i) == rows[i].height,
        columns[6].name@ == "storeys"@ && columns[6].integer_at(i) == rows[i].storeys,
{
    let all = rows_view(rows);
    let n = all.len();
    let none = Seq::<Seq<char>>::empty();
    let noreals = Seq::<Option<Real>>::empty();
    let noints = Seq::<Option<i32>>::empty();
    let a0 = Seq::new(n, |i: int| all[i].building_id);
    let a1 = Seq::new(n, |i: int| all[i].name);
    let a2 = Seq::new(n, |i: int| all[i].usage);
    let a3 = Seq::new(n, |i: int| all[i].class);
    let a4 = Seq::new(n, |i: int| all[i].city);
    let a5 = Seq::new(n, |i: int| all[i].height);
    let a6 = Seq::new(n, |i: int| all[i].storeys);
    geoparquet::law_columns_hold_their_list(columns[0], "building_id"@, none, a0, noreals, noints);
    geoparquet::law_columns_hold_their_list(columns[1], "name"@, none, a1, noreals, noints);
    geoparquet::law_columns_hold_their_list(columns[2], "usage"@, none, a2, noreals, noints);
    geoparquet::law_columns_hold_their_list(columns[3], "class"@, none, a3, noreals, noints);
    geoparquet::law_columns_hold_their_list(columns[4], "city"@, none, a4, noreals, noints);
    geoparquet::law_columns_hold_their_list(columns[5], "height"@, none, a0, a5, noints);
    geoparquet::law_columns_hold_their_list(columns[6], "storeys"@, none, a0, noreals, a6);
}

/// The bounds of rows are those of their geometries together.
pub proof fn law_extent_is_that_of_the_roofs(rows: Seq<RowView>)
    ensures
        rows_bounds(rows) == geoparquet::shapes_bounds(shapes_of(rows)),
        shapes_of(rows).len() == rows.len(),
        forall|i: int|
            #![trigger shapes_of(rows)[i]]
            0 <= i < rows.len() ==> shapes_of(rows)[i] == ShapeView::MultiPolygon(
                rows[i].geometry,
            ),
    decreases rows.len(),
{
    if rows.len() > 0 {
        law_extent_is_that_of_the_roofs(rows.drop_last());
        assert(shapes_of(rows).drop_last() =~= shapes_of(rows.drop_last()));
    }
}

/// The bounds of rows hold every vertex of every roof, and each side is reached
/// by one of them, where all are finite.
pub proof fn law_extent_is_tight(rows: Seq<RowView>, vertex: Coord)
    requires
        geo::finite_points(|c: Coord| geoparquet::on_shapes(shapes_of(rows), c)),
        geoparquet::on_shapes(shapes_of(rows), vertex),
    ensures
        geo::tight(rows_bounds(rows), |c: Coord| geoparquet::on_shapes(shapes_of(rows), c)),
{
    law_extent_is_that_of_the_roofs(rows);
    geoparquet::law_file_bounds_are_tight(shapes_of(rows), vertex);
}

/// Moving a building moves its roof, point by point, and leaves what is said of
/// it as it was.
pub proof fn law_buildings_are_moved<F: Fn(&Vec<Coord>) -> Option<Vec<Coord>>>(
    transform: F,
    g: spec_fn(Coord) -> Coord,
    before: Row,
    after: Row,
    k: int,
)
    requires
        transform::moves_by(transform, g),
        row_moved(transform, before, after),
        0 <= k < before.geometry@.len(),
    ensures
        text::optional_view(after.building_id) == text::optional_view(before.building_id),
        text::optional_view(after.name) == text::optional_view(before.name),
        text::optional_view(after.usage) == text::optional_view(before.usage),
        text::optional_view(after.class) == text::optional_view(before.class),
        text::optional_view(after.city) == text::optional_view(before.city),
        after.height == before.height,
        after.storeys == before.storeys,
        after.geometry@.len() == before.geometry@.len(),
        transform::follows_moved(after.geometry@[k].exterior@, before.geometry@[k].exterior@, g),
        forall|r: int|
            #![trigger after.geometry@[k].interiors@[r]]
            0 <= r < before.geometry@[k].interiors@.len() ==> transform::follows_moved(
                after.geometry@[k].interiors@[r]@,
                before.geometry@[k].interiors@[r]@,
                g,
            ),
{
    transform::law_polygons_are_moved_ring_by_ring(
        transform,
        g,
        before.geometry@,
        after.geometry@,
        k,
        0,
    );
    assert forall|r: int|
        #![trigger after.geometry@[k].interiors@[r]]
        0 <= r < before.geometry@[k].interiors@.len() implies transform::follows_moved(
        after.geometry@[k].interiors@[r]@,
        before.geometry@[k].interiors@[r]@,
        g,
    ) by {
        transform::law_polygons_are_moved_ring_by_ring(
            transform,
            g,
            before.geometry@,
            after.geometry@,
            k,
            r,
        );
    }
}

} // verus!
