//! Filled areas of `descartes`, as far as their outlines are read here.

use crate::number::Number;
use crate::path::path_distances;
use crate::path::path_points;
use crate::path::Point;
use descartes::Area;
use descartes::LinePath;
use descartes::PrimitiveArea;
use vstd::prelude::*;

verus! {

/// `descartes::PrimitiveArea`, taken as it is; its boundary is read through
/// `boundary_points` and `boundary_distances`.
#[verifier::external_type_specification]
#[verifier::external_body]
pub struct ExPrimitiveArea(descartes::PrimitiveArea);

/// `descartes::Area`, taken as it is; the boundaries of its primitives are
/// read through `area_outlines`.
#[verifier::external_type_specification]
#[verifier::external_body]
pub struct ExArea(descartes::Area);

/// The points of the boundary of a primitive area.
pub uninterp spec fn boundary_points(area: PrimitiveArea) -> Seq<Point>;

/// The distances of the boundary of a primitive area.
pub uninterp spec fn boundary_distances(area: PrimitiveArea) -> Seq<Number>;

/// The points of the boundary of each primitive of an area, in order.
pub uninterp spec fn area_outlines(area: Area) -> Seq<Seq<Point>>;

/// `ClosedLinePath::path` on the boundary of the area, and `LinePath::clone`:
/// a copy of the boundary path.
#[verifier::external_body]
pub(crate) fn boundary_path(area: &PrimitiveArea) -> (path: LinePath)
    ensures
        path_points(path) == boundary_points(*area),
        path_distances(path) == boundary_distances(*area),
{
    area.boundary.path().clone()
}

/// Reads the field `primitives` of an area and, of each primitive, the
/// points of `ClosedLinePath::path` on its boundary.
#[verifier::external_body]
pub(crate) fn outlines_of(area: &Area) -> (outlines: Vec<Vec<Point>>)
    ensures
        outlines.len() == area_outlines(*area).len(),
        forall|i: int| 0 <= i < outlines.len() ==> (#[trigger] outlines[i])@ == area_outlines(*area)[i],
{
    area.primitives.iter().map(
        |primitive| primitive.boundary.path().points.iter().map(
            |p| Point::from_bits(p.x.to_bits(), p.y.to_bits()),
        ).collect(),
    ).collect()
}

} // verus!
