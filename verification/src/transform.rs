//! Moving geometries into another reference system, point by point in the
//! order in which they stand.
use crate::features;
use crate::features::close_ring;
use crate::geo::{Coord, Polygon};
use crate::text;
use crate::text::push_decimal;
use vstd::prelude::*;

verus! {

/// A line could not be moved.
#[derive(Debug, Clone, Copy, PartialEq, Eq, Structural)]
pub struct TransformError;

impl TransformError {
    pub fn to_string(&self) -> (text: String)
        ensures
            text@ == "WGS84への変換に失敗しました"@,
    {
        "WGS84への変換に失敗しました".to_string()
    }
}

/// `transform` may be asked to move any line.
pub open spec fn total<F: Fn(&Vec<Coord>) -> Option<Vec<Coord>>>(transform: F) -> bool {
    forall|line: Vec<Coord>| #[trigger] call_requires(transform, (&line,))
}

/// `transform` may answer that for that line.
pub open spec fn answers<F: Fn(&Vec<Coord>) -> Option<Vec<Coord>>>(
    transform: F,
    line: Vec<Coord>,
    answer: Option<Vec<Coord>>,
) -> bool {
    call_ensures(transform, (&line,), answer)
}

/// `transform` may leave the line unmoved: it answers nothing, or other than
/// one point for each.
pub open spec fn refuses<F: Fn(&Vec<Coord>) -> Option<Vec<Coord>>>(
    transform: F,
    line: Vec<Coord>,
) -> bool {
    exists|answer: Option<Vec<Coord>>| #[trigger]
        answers(transform, line, answer) && (answer is None || answer->0@.len() != line@.len())
}

/// `after` is what `transform` may make of a line.
pub open spec fn line_moved<F: Fn(&Vec<Coord>) -> Option<Vec<Coord>>>(
    transform: F,
    before: Vec<Coord>,
    after: Seq<Coord>,
) -> bool {
    exists|answer: Option<Vec<Coord>>| #[trigger]
        answers(transform, before, answer) && answer is Some && answer->0@ == after
            && after.len() == before@.len()
}

/// `after` is what `transform` may make of a ring: closed, should it not be.
pub open spec fn ring_moved<F: Fn(&Vec<Coord>) -> Option<Vec<Coord>>>(
    transform: F,
    before: Vec<Coord>,
    after: Seq<Coord>,
) -> bool {
    exists|answer: Option<Vec<Coord>>| #[trigger]
        answers(transform, before, answer) && answer is Some && answer->0@.len() == before@.len()
            && after == features::closed_ring(answer->0@)
}

/// Every ring of a polygon was moved.
pub open spec fn polygon_moved<F: Fn(&Vec<Coord>) -> Option<Vec<Coord>>>(
    transform: F,
    before: Polygon,
    after: Polygon,
) -> bool {
    &&& ring_moved(transform, before.exterior, after.exterior@)
    &&& after.interiors@.len() == before.interiors@.len()
    &&& forall|i: int|
        #![trigger after.interiors@[i]]
        0 <= i < after.interiors@.len() ==> ring_moved(
            transform,
            before.interiors@[i],
            after.interiors@[i]@,
        )
}

/// Every polygon was moved.
pub open spec fn polygons_moved<F: Fn(&Vec<Coord>) -> Option<Vec<Coord>>>(
    transform: F,
    before: Seq<Polygon>,
    after: Seq<Polygon>,
) -> bool {
    &&& after.len() == before.len()
    &&& forall|i: int|
        #![trigger after[i]]
        0 <= i < after.len() ==> polygon_moved(transform, before[i], after[i])
}

/// `transform` may leave a ring of the polygon unmoved.
pub open spec fn polygon_refused<F: Fn(&Vec<Coord>) -> Option<Vec<Coord>>>(
    transform: F,
    p: Polygon,
) -> bool {
    refuses(transform, p.exterior) || exists|i: int|
        0 <= i < p.interiors@.len() && refuses(transform, #[trigger] p.interiors@[i])
}

pub open spec fn polygons_refused<F: Fn(&Vec<Coord>) -> Option<Vec<Coord>>>(
    transform: F,
    polygons: Seq<Polygon>,
) -> bool {
    exists|i: int|
        0 <= i < polygons.len() && polygon_refused(transform, #[trigger] polygons[i])
}

/// Moves the points of a line.
pub fn transform_line<F: Fn(&Vec<Coord>) -> Option<Vec<Coord>>>(
    line: &Vec<Coord>,
    transform: &F,
) -> (r: Result<Vec<Coord>, TransformError>)
    requires
        total(*transform),
    ensures
        match r {
            Ok(out) => line_moved(*transform, *line, out@),
            Err(_) => refuses(*transform, *line),
        },
{
    let answer = transform(line);
    let ghost kept = answer;
    assert(answers(*transform, *line, kept));
    match answer {
        Some(out) => if out.len() == line.len() {
            Ok(out)
        } else {
            Err(TransformError)
        },
        None => Err(TransformError),
    }
}

fn transform_ring<F: Fn(&Vec<Coord>) -> Option<Vec<Coord>>>(
    ring: &Vec<Coord>,
    transform: &F,
) -> (r: Result<Vec<Coord>, TransformError>)
    requires
        total(*transform),
    ensures
        match r {
            Ok(out) => ring_moved(*transform, *ring, out@),
            Err(_) => refuses(*transform, *ring),
        },
{
    match transform_line(ring, transform) {
        Ok(out) => Ok(close_ring(out)),
        Err(e) => Err(e),
    }
}

fn transform_polygon<F: Fn(&Vec<Coord>) -> Option<Vec<Coord>>>(
    p: &Polygon,
    transform: &F,
) -> (r: Result<Polygon, TransformError>)
    requires
        total(*transform),
    ensures
        match r {
            Ok(out) => polygon_moved(*transform, *p, out),
            Err(_) => polygon_refused(*transform, *p),
        },
{
    let exterior = match transform_ring(&p.exterior, transform) {
        Ok(ring) => ring,
        Err(e) => {
            return Err(e);
        },
    };
    let mut interiors: Vec<Vec<Coord>> = Vec::new();
    let mut i: usize = 0;
    while i < p.interiors.len()
        invariant
            i <= p.interiors@.len(),
            total(*transform),
            interiors@.len() == i,
            forall|j: int|
                #![trigger interiors@[j]]
                0 <= j < i ==> ring_moved(*transform, p.interiors@[j], interiors@[j]@),
        decreases p.interiors@.len() - i,
    {
        match transform_ring(&p.interiors[i], transform) {
            Ok(ring) => {
                interiors.push(ring);
            },
            Err(e) => {
                return Err(e);
            },
        }
        i = i + 1;
    }
    Ok(Polygon { exterior, interiors })
}

/// Moves every ring of every polygon. Where one cannot be moved, none is.
pub fn transform_polygons<F: Fn(&Vec<Coord>) -> Option<Vec<Coord>>>(
    polygons: &Vec<Polygon>,
    transform: &F,
) -> (r: Result<Vec<Polygon>, TransformError>)
    requires
        total(*transform),
    ensures
        match r {
            Ok(out) => polygons_moved(*transform, polygons@, out@),
            Err(_) => polygons_refused(*transform, polygons@),
        },
{
    let mut out: Vec<Polygon> = Vec::new();
    let mut i: usize = 0;
    while i < polygons.len()
        invariant
            i <= polygons@.len(),
            total(*transform),
            out@.len() == i,
            forall|j: int|
                #![trigger out@[j]]
                0 <= j < i ==> polygon_moved(*transform, polygons@[j], out@[j]),
        decreases polygons@.len() - i,
    {
        match transform_polygon(&polygons[i], transform) {
            Ok(p) => {
                out.push(p);
            },
            Err(e) => {
                return Err(e);
            },
        }
        i = i + 1;
    }
    Ok(out)
}

/// The name of a reference system.
pub fn crs_name(epsg: u32) -> (name: String)
    ensures
        name@ == "EPSG:"@ + text::decimal_text(epsg as nat),
{
    let mut name = "EPSG:".to_string();
    push_decimal(&mut name, epsg as u64);
    name
}

/// `transform` answers every line, and moves each of its points as `g` says.
pub open spec fn moves_by<F: Fn(&Vec<Coord>) -> Option<Vec<Coord>>>(
    transform: F,
    g: spec_fn(Coord) -> Coord,
) -> bool {
    forall|line: Vec<Coord>, answer: Option<Vec<Coord>>| #[trigger]
        answers(transform, line, answer) ==> answer is Some && answer->0@ == line@.map_values(g)
}

/// A ring has the points of another, each moved; the first may come again at
/// the end.
pub open spec fn follows_moved(
    ring: Seq<Coord>,
    before: Seq<Coord>,
    g: spec_fn(Coord) -> Coord,
) -> bool {
    &&& before.len() <= ring.len() <= before.len() + 1
    &&& forall|j: int| #![trigger ring[j]] 0 <= j < before.len() ==> ring[j] == g(before[j])
    &&& ring.len() > before.len() ==> ring.last() == ring[0]
}

/// Moving a line moves each of its points, in order.
pub proof fn law_lines_are_moved_point_by_point<F: Fn(&Vec<Coord>) -> Option<Vec<Coord>>>(
    transform: F,
    g: spec_fn(Coord) -> Coord,
    before: Vec<Coord>,
    after: Seq<Coord>,
)
    requires
        moves_by(transform, g),
        line_moved(transform, before, after),
    ensures
        after == before@.map_values(g),
{
}

/// Moving a ring moves each of its points, in order, and keeps it closed.
pub proof fn law_rings_are_moved_point_by_point<F: Fn(&Vec<Coord>) -> Option<Vec<Coord>>>(
    transform: F,
    g: spec_fn(Coord) -> Coord,
    before: Vec<Coord>,
    after: Seq<Coord>,
)
    requires
        moves_by(transform, g),
        ring_moved(transform, before, after),
    ensures
        follows_moved(after, before@, g),
{
    let answer = choose|answer: Option<Vec<Coord>>| #[trigger]
        answers(transform, before, answer) && answer is Some && answer->0@.len() == before@.len()
            && after == features::closed_ring(answer->0@);
    assert(answers(transform, before, answer));
    features::law_closing_keeps_the_points(answer->0@);
    assert(forall|j: int|
        #![trigger after[j]]
        0 <= j < before@.len() ==> after[j] == answer->0@[j]);
}

/// Moving polygons moves every ring of every one of them, holes too, point by
/// point: none is lost and none is left where it was.
pub proof fn law_polygons_are_moved_ring_by_ring<F: Fn(&Vec<Coord>) -> Option<Vec<Coord>>>(
    transform: F,
    g: spec_fn(Coord) -> Coord,
    before: Seq<Polygon>,
    after: Seq<Polygon>,
    k: int,
    r: int,
)
    requires
        moves_by(transform, g),
        polygons_moved(transform, before, after),
        0 <= k < before.len(),
    ensures
        after.len() == before.len(),
        after[k].interiors@.len() == before[k].interiors@.len(),
        follows_moved(after[k].exterior@, before[k].exterior@, g),
        0 <= r < before[k].interiors@.len() ==> follows_moved(
            after[k].interiors@[r]@,
            before[k].interiors@[r]@,
            g,
        ),
{
    assert(polygon_moved(transform, before[k], after[k]));
    law_rings_are_moved_point_by_point(transform, g, before[k].exterior, after[k].exterior@);
    if 0 <= r < before[k].interiors@.len() {
        law_rings_are_moved_point_by_point(
            transform,
            g,
            before[k].interiors@[r],
            after[k].interiors@[r]@,
        );
    }
}

} // verus!
