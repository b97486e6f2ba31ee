//! Points, lines and polygons, and their bounds.
use crate::number::Real;
use vstd::prelude::*;

verus! {

// ---------------------------------------------------------------------------
// Shapes
// ---------------------------------------------------------------------------

#[derive(Debug, Clone, Copy, PartialEq, Eq, Structural)]
pub struct Coord {
    pub x: Real,
    pub y: Real,
}

#[derive(Debug, PartialEq)]
pub struct Polygon {
    pub exterior: Vec<Coord>,
    pub interiors: Vec<Vec<Coord>>,
}

/// The view of a [`Polygon`].
#[verifier::ext_equal]
pub struct PolygonView {
    pub exterior: Seq<Coord>,
    pub interiors: Seq<Seq<Coord>>,
}

pub open spec fn rings_of(rings: Seq<Vec<Coord>>) -> Seq<Seq<Coord>> {
    Seq::new(rings.len(), |i: int| rings[i]@)
}

impl View for Polygon {
    type V = PolygonView;

    open spec fn view(&self) -> PolygonView {
        PolygonView { exterior: self.exterior@, interiors: rings_of(self.interiors@) }
    }
}

pub open spec fn polygons_of(polygons: Seq<Polygon>) -> Seq<PolygonView> {
    Seq::new(polygons.len(), |i: int| polygons[i]@)
}

/// A geometry that goes into a file.
#[derive(Debug, PartialEq)]
pub enum Shape {
    Point(Coord),
    Line(Vec<Coord>),
    Polygon(Polygon),
    MultiPolygon(Vec<Polygon>),
}

/// The view of a [`Shape`].
#[verifier::ext_equal]
pub enum ShapeView {
    Point(Coord),
    Line(Seq<Coord>),
    Polygon(PolygonView),
    MultiPolygon(Seq<PolygonView>),
}

impl View for Shape {
    type V = ShapeView;

    open spec fn view(&self) -> ShapeView {
        match self {
            Shape::Point(c) => ShapeView::Point(*c),
            Shape::Line(l) => ShapeView::Line(l@),
            Shape::Polygon(p) => ShapeView::Polygon(p@),
            Shape::MultiPolygon(m) => ShapeView::MultiPolygon(polygons_of(m@)),
        }
    }
}

// ---------------------------------------------------------------------------
// Bounds
// ---------------------------------------------------------------------------

#[derive(Debug, Clone, Copy, PartialEq, Eq, Structural)]
pub struct Bounds {
    pub xmin: Real,
    pub ymin: Real,
    pub xmax: Real,
    pub ymax: Real,
}

/// The bit pattern of the largest finite number.
pub const LARGEST: u64 = 0x7fef_ffff_ffff_ffff;

/// The bit pattern of the least finite number.
pub const LEAST: u64 = 0xffef_ffff_ffff_ffff;

impl Bounds {
    /// Bounds that anything widens.
    pub open spec fn spec_nothing() -> Bounds {
        Bounds {
            xmin: Real { bits: LARGEST },
            ymin: Real { bits: LARGEST },
            xmax: Real { bits: LEAST },
            ymax: Real { bits: LEAST },
        }
    }

    pub open spec fn spec_union(self, other: Bounds) -> Bounds {
        Bounds {
            xmin: self.xmin.spec_min(other.xmin),
            ymin: self.ymin.spec_min(other.ymin),
            xmax: self.xmax.spec_max(other.xmax),
            ymax: self.ymax.spec_max(other.ymax),
        }
    }

    /// The bounds of a single point.
    pub open spec fn spec_at(c: Coord) -> Bounds {
        Bounds { xmin: c.x, ymin: c.y, xmax: c.x, ymax: c.y }
    }

    pub fn nothing() -> (b: Bounds)
        ensures
            b == Self::spec_nothing(),
    {
        Bounds {
            xmin: Real { bits: LARGEST },
            ymin: Real { bits: LARGEST },
            xmax: Real { bits: LEAST },
            ymax: Real { bits: LEAST },
        }
    }

    pub fn union(&self, other: &Bounds) -> (b: Bounds)
        ensures
            b == self.spec_union(*other),
    {
        Bounds {
            xmin: self.xmin.min(&other.xmin),
            ymin: self.ymin.min(&other.ymin),
            xmax: self.xmax.max(&other.xmax),
            ymax: self.ymax.max(&other.ymax),
        }
    }

    pub fn at(c: &Coord) -> (b: Bounds)
        ensures
            b == Self::spec_at(*c),
    {
        Bounds { xmin: c.x, ymin: c.y, xmax: c.x, ymax: c.y }
    }

    /// The four numbers, in the order west, south, east, north.
    pub open spec fn numbers(self) -> Seq<Real> {
        seq![self.xmin, self.ymin, self.xmax, self.ymax]
    }

    /// No coordinate of `c` lies outside.
    pub open spec fn holds(self, c: Coord) -> bool {
        &&& self.xmin.rank() <= c.x.rank() <= self.xmax.rank()
        &&& self.ymin.rank() <= c.y.rank() <= self.ymax.rank()
    }

    /// Nothing that `other` holds lies outside.
    pub open spec fn encloses(self, other: Bounds) -> bool {
        &&& self.xmin.rank() <= other.xmin.rank()
        &&& self.ymin.rank() <= other.ymin.rank()
        &&& self.xmax.rank() >= other.xmax.rank()
        &&& self.ymax.rank() >= other.ymax.rank()
    }

    pub open spec fn has_nan(self) -> bool {
        self.xmin.nan() || self.ymin.nan() || self.xmax.nan() || self.ymax.nan()
    }
}

/// The bounds of a row of points.
pub open spec fn line_bounds(line: Seq<Coord>) -> Bounds
    decreases line.len(),
{
    if line.len() == 0 {
        Bounds::spec_nothing()
    } else {
        line_bounds(line.drop_last()).spec_union(Bounds::spec_at(line.last()))
    }
}

/// The bounds of several rings together.
pub open spec fn rings_bounds(rings: Seq<Seq<Coord>>) -> Bounds
    decreases rings.len(),
{
    if rings.len() == 0 {
        Bounds::spec_nothing()
    } else {
        rings_bounds(rings.drop_last()).spec_union(line_bounds(rings.last()))
    }
}

pub open spec fn polygon_bounds(p: PolygonView) -> Bounds {
    line_bounds(p.exterior).spec_union(rings_bounds(p.interiors))
}

pub open spec fn polygons_bounds(polygons: Seq<PolygonView>) -> Bounds
    decreases polygons.len(),
{
    if polygons.len() == 0 {
        Bounds::spec_nothing()
    } else {
        polygons_bounds(polygons.drop_last()).spec_union(polygon_bounds(polygons.last()))
    }
}

/// The bounds of a shape: of all its points, holes of polygons among them.
pub open spec fn shape_bounds(s: ShapeView) -> Bounds {
    match s {
        ShapeView::Point(c) => Bounds::spec_at(c),
        ShapeView::Line(l) => line_bounds(l),
        ShapeView::Polygon(p) => polygon_bounds(p),
        ShapeView::MultiPolygon(m) => polygons_bounds(m),
    }
}

/// Where no bound is a NaN, a union encloses both sides.
pub proof fn law_union_encloses(a: Bounds, b: Bounds)
    requires
        !a.has_nan(),
        !b.has_nan(),
    ensures
        a.spec_union(b).encloses(a),
        a.spec_union(b).encloses(b),
        !a.spec_union(b).has_nan(),
{
}

/// The bounds of a line hold each of its points, where they are all finite.
pub proof fn law_line_bounds_hold(line: Seq<Coord>, i: int)
    requires
        0 <= i < line.len(),
        forall|j: int|
            0 <= j < line.len() ==> (#[trigger] line[j]).x.finite() && line[j].y.finite(),
    ensures
        line_bounds(line).holds(line[i]),
        !line_bounds(line).has_nan(),
    decreases line.len(),
{
    let rest = line.drop_last();
    let last = line.last();
    assert(last == line[line.len() - 1]);
    assert forall|j: int| 0 <= j < rest.len() implies (#[trigger] rest[j]).x.finite()
        && rest[j].y.finite() by {
        assert(rest[j] == line[j]);
    }
    if rest.len() > 0 {
        law_line_bounds_hold(rest, if i < rest.len() {
            i
        } else {
            0
        });
    } else {
        assert(line_bounds(rest) == Bounds::spec_nothing());
    }
}

/// A point is a vertex of a polygon: of its outer ring or of a hole.
pub open spec fn on_polygon(p: PolygonView, c: Coord) -> bool {
    p.exterior.contains(c) || exists|r: int|
        0 <= r < p.interiors.len() && (#[trigger] p.interiors[r]).contains(c)
}

/// A point is a vertex of a shape.
pub open spec fn on_shape(s: ShapeView, c: Coord) -> bool {
    match s {
        ShapeView::Point(at) => c == at,
        ShapeView::Line(l) => l.contains(c),
        ShapeView::Polygon(p) => on_polygon(p, c),
        ShapeView::MultiPolygon(m) => exists|k: int|
            0 <= k < m.len() && on_polygon(#[trigger] m[k], c),
    }
}

/// Every point has finite coordinates.
pub open spec fn finite_points(points: spec_fn(Coord) -> bool) -> bool {
    forall|c: Coord| #[trigger] points(c) ==> c.x.finite() && c.y.finite()
}

/// The bounds hold every point, and each side is reached by one.
pub open spec fn tight(b: Bounds, points: spec_fn(Coord) -> bool) -> bool {
    &&& forall|c: Coord| #[trigger] points(c) ==> b.holds(c)
    &&& exists|c: Coord| #[trigger] points(c) && c.x == b.xmin
    &&& exists|c: Coord| #[trigger] points(c) && c.y == b.ymin
    &&& exists|c: Coord| #[trigger] points(c) && c.x == b.xmax
    &&& exists|c: Coord| #[trigger] points(c) && c.y == b.ymax
}

/// Tight, or without any point.
pub open spec fn fits(b: Bounds, points: spec_fn(Coord) -> bool) -> bool {
    &&& !b.has_nan()
    &&& forall|c: Coord| #[trigger] points(c) ==> b.holds(c)
    &&& b.xmin.bits == LARGEST || exists|c: Coord| #[trigger] points(c) && c.x == b.xmin
    &&& b.ymin.bits == LARGEST || exists|c: Coord| #[trigger] points(c) && c.y == b.ymin
    &&& b.xmax.bits == LEAST || exists|c: Coord| #[trigger] points(c) && c.x == b.xmax
    &&& b.ymax.bits == LEAST || exists|c: Coord| #[trigger] points(c) && c.y == b.ymax
}

pub proof fn lemma_union_fits(
    a: Bounds,
    some: spec_fn(Coord) -> bool,
    b: Bounds,
    others: spec_fn(Coord) -> bool,
    all: spec_fn(Coord) -> bool,
)
    requires
        fits(a, some),
        fits(b, others),
        forall|c: Coord| #[trigger] all(c) <==> some(c) || others(c),
    ensures
        fits(a.spec_union(b), all),
{
    let u = a.spec_union(b);
    law_union_encloses(a, b);
    assert forall|c: Coord| #[trigger] all(c) implies u.holds(c) by {
        if some(c) {
            assert(a.holds(c));
        } else {
            assert(others(c));
            assert(b.holds(c));
        }
    }
    assert forall|c: Coord| #[trigger] some(c) implies all(c) by {}
    assert forall|c: Coord| #[trigger] others(c) implies all(c) by {}
    if u.xmin.bits != LARGEST {
        let c = if u.xmin == a.xmin {
            choose|c: Coord| #[trigger] some(c) && c.x == a.xmin
        } else {
            choose|c: Coord| #[trigger] others(c) && c.x == b.xmin
        };
        assert(all(c));
    }
    if u.ymin.bits != LARGEST {
        let c = if u.ymin == a.ymin {
            choose|c: Coord| #[trigger] some(c) && c.y == a.ymin
        } else {
            choose|c: Coord| #[trigger] others(c) && c.y == b.ymin
        };
        assert(all(c));
    }
    if u.xmax.bits != LEAST {
        let c = if u.xmax == a.xmax {
            choose|c: Coord| #[trigger] some(c) && c.x == a.xmax
        } else {
            choose|c: Coord| #[trigger] others(c) && c.x == b.xmax
        };
        assert(all(c));
    }
    if u.ymax.bits != LEAST {
        let c = if u.ymax == a.ymax {
            choose|c: Coord| #[trigger] some(c) && c.y == a.ymax
        } else {
            choose|c: Coord| #[trigger] others(c) && c.y == b.ymax
        };
        assert(all(c));
    }
}

proof fn lemma_point_fits(at: Coord)
    requires
        at.x.finite(),
        at.y.finite(),
    ensures
        fits(Bounds::spec_at(at), |c: Coord| c == at),
{
    let points = |c: Coord| c == at;
    assert(points(at));
}

proof fn lemma_line_fits(line: Seq<Coord>)
    requires
        finite_points(|c: Coord| line.contains(c)),
    ensures
        fits(line_bounds(line), |c: Coord| line.contains(c)),
    decreases line.len(),
{
    let all = |c: Coord| line.contains(c);
    if line.len() > 0 {
        let rest = line.drop_last();
        let last = line.last();
        let some = |c: Coord| rest.contains(c);
        let one = |c: Coord| c == last;
        assert(all(last)) by {
            assert(line[line.len() - 1] == last);
        }
        assert forall|c: Coord| #[trigger] some(c) implies all(c) by {
            let i = choose|i: int| 0 <= i < rest.len() && rest[i] == c;
            assert(line[i] == c);
        }
        assert forall|c: Coord| #[trigger] all(c) implies some(c) || one(c) by {
            let i = choose|i: int| 0 <= i < line.len() && line[i] == c;
            if i < rest.len() {
                assert(rest[i] == c);
            }
        }
        lemma_line_fits(rest);
        lemma_point_fits(last);
        lemma_union_fits(line_bounds(rest), some, Bounds::spec_at(last), one, all);
    }
}

proof fn lemma_rings_fit(rings: Seq<Seq<Coord>>)
    requires
        finite_points(
            |c: Coord|
                exists|r: int| 0 <= r < rings.len() && (#[trigger] rings[r]).contains(c),
        ),
    ensures
        fits(
            rings_bounds(rings),
            |c: Coord| exists|r: int| 0 <= r < rings.len() && (#[trigger] rings[r]).contains(c),
        ),
    decreases rings.len(),
{
    let all = |c: Coord|
        exists|r: int| 0 <= r < rings.len() && (#[trigger] rings[r]).contains(c);
    if rings.len() > 0 {
        let rest = rings.drop_last();
        let last = rings.last();
        let some = |c: Coord|
            exists|r: int| 0 <= r < rest.len() && (#[trigger] rest[r]).contains(c);
        let one = |c: Coord| last.contains(c);
        assert forall|c: Coord| #[trigger] some(c) implies all(c) by {
            let r = choose|r: int| 0 <= r < rest.len() && (#[trigger] rest[r]).contains(c);
            assert(rings[r].contains(c));
        }
        assert forall|c: Coord| #[trigger] one(c) implies all(c) by {
            assert(rings[rings.len() - 1].contains(c));
        }
        assert forall|c: Coord| #[trigger] all(c) implies some(c) || one(c) by {
            let r = choose|r: int| 0 <= r < rings.len() && (#[trigger] rings[r]).contains(c);
            if r < rest.len() {
                assert(rest[r].contains(c));
            }
        }
        lemma_rings_fit(rest);
        lemma_line_fits(last);
        lemma_union_fits(rings_bounds(rest), some, line_bounds(last), one, all);
    }
}

proof fn lemma_polygon_fits(p: PolygonView)
    requires
        finite_points(|c: Coord| on_polygon(p, c)),
    ensures
        fits(polygon_bounds(p), |c: Coord| on_polygon(p, c)),
{
    let all = |c: Coord| on_polygon(p, c);
    let outer = |c: Coord| p.exterior.contains(c);
    let inner = |c: Coord|
        exists|r: int| 0 <= r < p.interiors.len() && (#[trigger] p.interiors[r]).contains(c);
    assert forall|c: Coord| #[trigger] outer(c) implies all(c) by {}
    assert forall|c: Coord| #[trigger] inner(c) implies all(c) by {}
    lemma_line_fits(p.exterior);
    lemma_rings_fit(p.interiors);
    lemma_union_fits(line_bounds(p.exterior), outer, rings_bounds(p.interiors), inner, all);
}

proof fn lemma_polygons_fit(polygons: Seq<PolygonView>)
    requires
        finite_points(
            |c: Coord| exists|k: int| 0 <= k < polygons.len() && on_polygon(#[trigger] polygons[k], c),
        ),
    ensures
        fits(
            polygons_bounds(polygons),
            |c: Coord| exists|k: int| 0 <= k < polygons.len() && on_polygon(#[trigger] polygons[k], c),
        ),
    decreases polygons.len(),
{
    let all = |c: Coord|
        exists|k: int| 0 <= k < polygons.len() && on_polygon(#[trigger] polygons[k], c);
    if polygons.len() > 0 {
        let rest = polygons.drop_last();
        let last = polygons.last();
        let some = |c: Coord|
            exists|k: int| 0 <= k < rest.len() && on_polygon(#[trigger] rest[k], c);
        let one = |c: Coord| on_polygon(last, c);
        assert forall|c: Coord| #[trigger] some(c) implies all(c) by {
            let k = choose|k: int| 0 <= k < rest.len() && on_polygon(#[trigger] rest[k], c);
            assert(on_polygon(polygons[k], c));
        }
        assert forall|c: Coord| #[trigger] one(c) implies all(c) by {
            assert(on_polygon(polygons[polygons.len() - 1], c));
        }
        assert forall|c: Coord| #[trigger] all(c) implies some(c) || one(c) by {
            let k = choose|k: int| 0 <= k < polygons.len() && on_polygon(#[trigger] polygons[k], c);
            if k < rest.len() {
                assert(on_polygon(rest[k], c));
            }
        }
        lemma_polygons_fit(rest);
        lemma_polygon_fits(last);
        lemma_union_fits(polygons_bounds(rest), some, polygon_bounds(last), one, all);
    }
}

pub proof fn lemma_shape_fits(s: ShapeView)
    requires
        finite_points(|c: Coord| on_shape(s, c)),
    ensures
        fits(shape_bounds(s), |c: Coord| on_shape(s, c)),
{
    let all = |c: Coord| on_shape(s, c);
    match s {
        ShapeView::Point(at) => {
            let points = |c: Coord| c == at;
            assert(all(at));
            assert(points(at));
            assert(forall|c: Coord| #[trigger] all(c) <==> points(c));
        },
        ShapeView::Line(l) => {
            let points = |c: Coord| l.contains(c);
            assert forall|c: Coord| #[trigger] points(c) implies all(c) by {}
            lemma_line_fits(l);
            assert(all =~= points);
        },
        ShapeView::Polygon(p) => {
            let points = |c: Coord| on_polygon(p, c);
            assert forall|c: Coord| #[trigger] points(c) implies all(c) by {}
            lemma_polygon_fits(p);
            assert(all =~= points);
        },
        ShapeView::MultiPolygon(m) => {
            let points = |c: Coord|
                exists|k: int| 0 <= k < m.len() && on_polygon(#[trigger] m[k], c);
            assert forall|c: Coord| #[trigger] points(c) implies all(c) by {}
            lemma_polygons_fit(m);
            assert(all =~= points);
        },
    }
}

pub proof fn lemma_fit_is_tight(b: Bounds, points: spec_fn(Coord) -> bool, c: Coord)
    requires
        fits(b, points),
        finite_points(points),
        points(c),
    ensures
        tight(b, points),
{
    assert(b.holds(c));
    assert(c.x.finite() && c.y.finite());
}

/// The bounds of a shape hold each of its vertices, those of its holes too,
/// and each side is reached by a vertex, where all of them are finite.
pub proof fn law_bounds_are_tight(s: ShapeView, vertex: Coord)
    requires
        finite_points(|c: Coord| on_shape(s, c)),
        on_shape(s, vertex),
    ensures
        tight(shape_bounds(s), |c: Coord| on_shape(s, c)),
{
    let all = |c: Coord| on_shape(s, c);
    lemma_shape_fits(s);
    assert(all(vertex));
    lemma_fit_is_tight(shape_bounds(s), all, vertex);
}

/// The bounds of several polygons hold every vertex of the outer ring and of
/// the holes of each of them, and each side is reached by one of these
/// vertices, where all of them are finite.
pub proof fn law_bounds_hold_every_polygon(polygons: Seq<PolygonView>)
    requires
        finite_points(|c: Coord| on_shape(ShapeView::MultiPolygon(polygons), c)),
    ensures
        forall|k: int, j: int|
            #![trigger polygons[k].exterior[j]]
            0 <= k < polygons.len() && 0 <= j < polygons[k].exterior.len() ==> polygons_bounds(
                polygons,
            ).holds(polygons[k].exterior[j]),
        forall|k: int, r: int, j: int|
            #![trigger polygons[k].interiors[r][j]]
            0 <= k < polygons.len() && 0 <= r < polygons[k].interiors.len() && 0 <= j
                < polygons[k].interiors[r].len() ==> polygons_bounds(polygons).holds(
                polygons[k].interiors[r][j],
            ),
        (exists|k: int| 0 <= k < polygons.len() && (#[trigger] polygons[k]).exterior.len() > 0)
            ==> tight(
            polygons_bounds(polygons),
            |c: Coord| exists|k: int| 0 <= k < polygons.len() && on_polygon(#[trigger] polygons[k], c),
        ),
{
    let s = ShapeView::MultiPolygon(polygons);
    let all = |c: Coord| on_shape(s, c);
    let points = |c: Coord|
        exists|k: int| 0 <= k < polygons.len() && on_polygon(#[trigger] polygons[k], c);
    lemma_shape_fits(s);
    assert(all =~= points);
    assert forall|k: int, j: int|
        #![trigger polygons[k].exterior[j]]
        0 <= k < polygons.len() && 0 <= j < polygons[k].exterior.len() implies polygons_bounds(
        polygons,
    ).holds(polygons[k].exterior[j]) by {
        let c = polygons[k].exterior[j];
        assert(polygons[k].exterior.contains(c));
        assert(on_polygon(polygons[k], c));
        assert(all(c));
    }
    assert forall|k: int, r: int, j: int|
        #![trigger polygons[k].interiors[r][j]]
        0 <= k < polygons.len() && 0 <= r < polygons[k].interiors.len() && 0 <= j
            < polygons[k].interiors[r].len() implies polygons_bounds(polygons).holds(
        polygons[k].interiors[r][j],
    ) by {
        let c = polygons[k].interiors[r][j];
        assert(polygons[k].interiors[r].contains(c));
        assert(on_polygon(polygons[k], c));
        assert(all(c));
    }
    if exists|k: int| 0 <= k < polygons.len() && (#[trigger] polygons[k]).exterior.len() > 0 {
        let k = choose|k: int|
            0 <= k < polygons.len() && (#[trigger] polygons[k]).exterior.len() > 0;
        let c = polygons[k].exterior[0];
        assert(polygons[k].exterior.contains(c));
        assert(on_polygon(polygons[k], c));
        assert(points(c));
        lemma_fit_is_tight(polygons_bounds(polygons), points, c);
    }
}

pub fn bounds_of_line(line: &Vec<Coord>) -> (b: Bounds)
    ensures
        b == line_bounds(line@),
{
    let mut b = Bounds::nothing();
    let mut i: usize = 0;
    assert(line@.take(0) == Seq::<Coord>::empty());
    while i < line.len()
        invariant
            i <= line@.len(),
            b == line_bounds(line@.take(i as int)),
        decreases line@.len() - i,
    {
        assert(line@.take(i + 1).drop_last() == line@.take(i as int));
        b = b.union(&Bounds::at(&line[i]));
        i = i + 1;
    }
    assert(line@.take(i as int) == line@);
    b
}

fn bounds_of_rings(rings: &Vec<Vec<Coord>>) -> (b: Bounds)
    ensures
        b == rings_bounds(rings_of(rings@)),
{
    let mut b = Bounds::nothing();
    let mut i: usize = 0;
    let ghost all = rings_of(rings@);
    assert(all.take(0) == Seq::<Seq<Coord>>::empty());
    while i < rings.len()
        invariant
            i <= rings@.len(),
            all == rings_of(rings@),
            b == rings_bounds(all.take(i as int)),
        decreases rings@.len() - i,
    {
        assert(all.take(i + 1).drop_last() == all.take(i as int));
        assert(all.take(i + 1).last() == rings@[i as int]@);
        b = b.union(&bounds_of_line(&rings[i]));
        i = i + 1;
    }
    assert(all.take(i as int) == all);
    b
}

pub fn bounds_of_polygon(p: &Polygon) -> (b: Bounds)
    ensures
        b == polygon_bounds(p@),
{
    bounds_of_line(&p.exterior).union(&bounds_of_rings(&p.interiors))
}

pub fn bounds_of_polygons(polygons: &Vec<Polygon>) -> (b: Bounds)
    ensures
        b == polygons_bounds(polygons_of(polygons@)),
{
    let mut b = Bounds::nothing();
    let mut i: usize = 0;
    let ghost all = polygons_of(polygons@);
    assert(all.take(0) == Seq::<PolygonView>::empty());
    while i < polygons.len()
        invariant
            i <= polygons@.len(),
            all == polygons_of(polygons@),
            b == polygons_bounds(all.take(i as int)),
        decreases polygons@.len() - i,
    {
        assert(all.take(i + 1).drop_last() == all.take(i as int));
        assert(all.take(i + 1).last() == polygons@[i as int]@);
        b = b.union(&bounds_of_polygon(&polygons[i]));
        i = i + 1;
    }
    assert(all.take(i as int) == all);
    b
}

pub fn bounds_of_shape(s: &Shape) -> (b: Bounds)
    ensures
        b == shape_bounds(s@),
{
    match s {
        Shape::Point(c) => Bounds::at(c),
        Shape::Line(l) => bounds_of_line(l),
        Shape::Polygon(p) => bounds_of_polygon(p),
        Shape::MultiPolygon(m) => bounds_of_polygons(m),
    }
}

// ---------------------------------------------------------------------------
// Copies
// ---------------------------------------------------------------------------

pub fn copy_line(line: &Vec<Coord>) -> (copy: Vec<Coord>)
    ensures
        copy@ == line@,
{
    let mut copy: Vec<Coord> = Vec::new();
    let mut i: usize = 0;
    while i < line.len()
        invariant
            i <= line@.len(),
            copy@ == line@.take(i as int),
        decreases line@.len() - i,
    {
        copy.push(line[i]);
        i = i + 1;
        assert(line@.take(i as int) == line@.take(i - 1).push(line@[i - 1]));
    }
    assert(line@.take(i as int) == line@);
    copy
}

pub fn copy_polygon(p: &Polygon) -> (copy: Polygon)
    ensures
        copy@ == p@,
{
    let mut interiors: Vec<Vec<Coord>> = Vec::new();
    let mut i: usize = 0;
    while i < p.interiors.len()
        invariant
            i <= p.interiors@.len(),
            interiors@.len() == i,
            forall|j: int| 0 <= j < i ==> (#[trigger] interiors@[j])@ == p.interiors@[j]@,
        decreases p.interiors@.len() - i,
    {
        interiors.push(copy_line(&p.interiors[i]));
        i = i + 1;
    }
    let copy = Polygon { exterior: copy_line(&p.exterior), interiors };
    assert(copy@.interiors =~= p@.interiors);
    copy
}

pub fn copy_polygons(polygons: &Vec<Polygon>) -> (copy: Vec<Polygon>)
    ensures
        polygons_of(copy@) == polygons_of(polygons@),
{
    let mut copy: Vec<Polygon> = Vec::new();
    let mut i: usize = 0;
    while i < polygons.len()
        invariant
            i <= polygons@.len(),
            copy@.len() == i,
            forall|j: int| 0 <= j < i ==> (#[trigger] copy@[j])@ == polygons@[j]@,
        decreases polygons@.len() - i,
    {
        copy.push(copy_polygon(&polygons[i]));
        i = i + 1;
    }
    assert(polygons_of(copy@) =~= polygons_of(polygons@));
    copy
}

} // verus!
