//! Lines at an elevation, the surfaces built from them, and the sculpture
//! that turns a list of surfaces into one mesh.

use crate::area::boundary_distances;
use crate::area::boundary_path;
use crate::area::boundary_points;
use crate::fill::fill_mesh;
use crate::fill::lemma_fill_mesh;
use crate::fill::Fill;
use crate::fill::FillView;
use crate::fill::outline_events;
use crate::fill::PathEvent;
use crate::fill::push_outline;
use crate::mesh::INDEX_LIMIT;
use crate::mesh::lemma_join;
use crate::mesh::Mesh;
use crate::mesh::MeshView;
use crate::mesh::Vertex;
use crate::mesh::vertex_at;
use crate::number::Number;
use crate::path::along;
use crate::path::clone_path;
use crate::path::concat;
use crate::path::concatenated_points;
use crate::path::distances_of;
use crate::path::end_direction;
use crate::path::end_direction_of;
use crate::path::ends_meet;
use crate::path::is_closed;
use crate::path::made_path;
use crate::path::new_path;
use crate::path::new_path_points;
use crate::path::path_distances;
use crate::path::path_length;
use crate::path::path_points;
use crate::path::Point;
use crate::path::point_along;
use crate::path::points_of;
use crate::path::respanned_points;
use crate::path::same_place;
use crate::path::shift_orthogonally;
use crate::path::shifted_points;
use crate::path::start_direction;
use crate::path::start_direction_of;
use crate::path::subsection;
use crate::path::subsection_points;
use crate::path::valid_path;
use crate::path::with_new_start_and_end;
use crate::shared::share;
use crate::strip::lemma_strip_in_runs;
use crate::strip::strip_indices;
use crate::strip::strip_spec;
use descartes::LinePath;
use descartes::PrimitiveArea;
use std::rc::Rc;
use vstd::prelude::*;

verus! {

/// A path at a constant elevation.
pub struct SculptLine {
    pub path: LinePath,
    pub z: Number,
}

/// The ribbon between two lines.
pub struct SpannedSurface {
    pub left_line: Rc<SculptLine>,
    pub right_line: Rc<SculptLine>,
}

/// The filled inside of a closed line.
pub struct FlatSurface {
    pub boundary: Rc<SculptLine>,
}

/// The points in the opposite order.
pub fn reversed(points: &Vec<Point>) -> (turned: Vec<Point>)
    ensures
        turned@ == points@.reverse(),
{
    let mut turned: Vec<Point> = Vec::new();
    let mut i: usize = points.len();
    while i > 0
        invariant
            i <= points.len(),
            turned.len() == points.len() - i,
            forall|j: int| 0 <= j < turned.len() ==> (#[trigger] turned[j]) == points[points.len() - 1 - j],
        decreases i,
    {
        i = i - 1;
        turned.push(points[i]);
    }
    proof {
        assert(turned@ =~= points@.reverse());
    }
    turned
}

/// The path through the points of `path` in the opposite order, if they make
/// a path.
pub fn reverse_path(path: &LinePath) -> (turned: Option<LinePath>)
    ensures
        match turned {
            Some(new_path) => new_path_points(path_points(*path).reverse()) == Some(
                path_points(new_path),
            ) && made_path(new_path),
            None => new_path_points(path_points(*path).reverse()).is_none(),
        },
{
    let points = points_of(path);
    let turned = reversed(&points);
    new_path(&turned)
}

/// The distance at which each part of a subdivision ends: the distance at
/// which it starts plus its share of the whole length.
pub open spec fn part_end(start: Number, length: Number, weight: Number, total: Number) -> Number {
    start.plus(length.times(weight.over(total)))
}

/// The weights added up from zero, in order.
pub open spec fn weight_total(weights: Seq<Number>) -> Number
    decreases weights.len(),
{
    if weights.len() == 0 {
        Number { bits: 0 }
    } else {
        weight_total(weights.drop_last()).plus(weights.last())
    }
}

/// The distance at which the part of weight `weights[n]` starts.
pub open spec fn part_start(weights: Seq<Number>, length: Number, n: int) -> Number
    decreases n,
{
    if n <= 0 {
        Number { bits: 0 }
    } else {
        part_end(part_start(weights, length, n - 1), length, weights[n - 1], weight_total(weights))
    }
}

/// The points of the `n`th part of a line divided by `weights`, if they make
/// a path.
pub open spec fn part_points(line: &SculptLine, weights: Seq<Number>, n: int) -> Option<Seq<Point>> {
    let length = line.distances().last();
    subsection_points(
        line.points(),
        line.distances(),
        part_start(weights, length, n),
        part_start(weights, length, n + 1),
    )
}

/// The points of the parts that the first `n` weights give, those left out
/// that make no path.
pub open spec fn parts_points(line: &SculptLine, weights: Seq<Number>, n: int) -> Seq<Seq<Point>>
    decreases n,
{
    if n <= 0 {
        Seq::empty()
    } else {
        match part_points(line, weights, n - 1) {
            Some(points) => parts_points(line, weights, n - 1).push(points),
            None => parts_points(line, weights, n - 1),
        }
    }
}

impl SculptLine {
    /// The points of the line.
    pub open spec fn points(&self) -> Seq<Point> {
        path_points(self.path)
    }

    /// The distances along the line.
    pub open spec fn distances(&self) -> Seq<Number> {
        path_distances(self.path)
    }

    /// The line runs along a valid path.
    pub open spec fn wf(&self) -> bool {
        valid_path(self.path)
    }

    /// The line along `path` at elevation `z`.
    pub fn new(path: LinePath, z: Number) -> (line: Self)
        ensures
            line.path == path,
            line.z == z,
    {
        SculptLine { path, z }
    }

    /// The surface from `line` to a new line that lies `up` higher and `out`
    /// further to the right, together with that line. Where `out` is zero
    /// the new line runs along a copy of the path; else along the path
    /// shifted, and there is no result where the shift gives no path.
    pub fn extrude(line: &Rc<Self>, up: Number, out: Number) -> (r: Option<
        (SpannedSurface, Rc<SculptLine>),
    >)
        requires
            line.wf(),
        ensures
            match r {
                Some((surface, upper)) => {
                    &&& surface.left_line == *line
                    &&& surface.right_line == upper
                    &&& upper.z == line.z.plus(up)
                    &&& upper.wf()
                    &&& if out.is_zero() {
                        upper.points() == line.points() && upper.distances() == line.distances()
                    } else {
                        shifted_points(line.points(), out) == Some(upper.points()) && made_path(
                            upper.path,
                        )
                    }
                },
                None => !out.is_zero() && shifted_points(line.points(), out).is_none(),
            },
            up.is_zero() && !line.z.is_nan() ==> r.is_some() ==> r.unwrap().1.z.same_value(line.z),
    {
        let path = if out.is_zero() {
            clone_path(&line.path)
        } else {
            match shift_orthogonally(&line.path, out) {
                Some(path) => path,
                None => {
                    return None;
                },
            }
        };
        let upper_line = Rc::new(SculptLine { path, z: line.z.plus(up) });
        let spanned_surface = SpannedSurface::new(share(line), share(&upper_line));
        Some((spanned_surface, upper_line))
    }

    /// The line cut into parts, one for each weight, each as long as its
    /// weight's share of the sum of the weights; a part that makes no path
    /// is left out.
    pub fn subdivide(&self, weights: &[Number]) -> (parts: Vec<Rc<SculptLine>>)
        requires
            self.wf(),
        ensures
            parts.len() == parts_points(self, weights@, weights.len() as int).len(),
            forall|i: int|
                0 <= i < parts.len() ==> {
                    &&& (#[trigger] parts[i]).points() == parts_points(
                        self,
                        weights@,
                        weights.len() as int,
                    )[i]
                    &&& parts[i].z == self.z
                    &&& made_path(parts[i].path)
                },
    {
        let mut total_weight = Number::zero();
        let mut k: usize = 0;
        while k < weights.len()
            invariant
                k <= weights.len(),
                total_weight == weight_total(weights@.subrange(0, k as int)),
            decreases weights.len() - k,
        {
            proof {
                assert(weights@.subrange(0, k + 1).drop_last() =~= weights@.subrange(0, k as int));
            }
            total_weight = total_weight.plus(weights[k]);
            k = k + 1;
        }
        proof {
            assert(weights@.subrange(0, weights.len() as int) =~= weights@);
        }
        let total_length = path_length(&self.path);
        let mut start = Number::zero();
        let mut parts: Vec<Rc<SculptLine>> = Vec::new();
        let mut n: usize = 0;
        while n < weights.len()
            invariant
                n <= weights.len(),
                self.wf(),
                total_weight == weight_total(weights@),
                total_length == self.distances().last(),
                start == part_start(weights@, total_length, n as int),
                parts.len() == parts_points(self, weights@, n as int).len(),
                forall|i: int|
                    0 <= i < parts.len() ==> {
                        &&& (#[trigger] parts[i]).points() == parts_points(self, weights@, n as int)[i]
                        &&& parts[i].z == self.z
                        &&& made_path(parts[i].path)
                    },
            decreases weights.len() - n,
        {
            let end = start.plus(total_length.times(weights[n].over(total_weight)));
            let maybe_path = subsection(&self.path, start, end);
            start = end;
            match maybe_path {
                Some(path) => {
                    parts.push(Rc::new(SculptLine::new(path, self.z)));
                },
                None => {},
            }
            n = n + 1;
        }
        parts
    }
}

impl SpannedSurface {
    /// The surface between the two lines.
    pub fn new(left_line: Rc<SculptLine>, right_line: Rc<SculptLine>) -> (surface: SpannedSurface)
        ensures
            surface.left_line == left_line,
            surface.right_line == right_line,
    {
        SpannedSurface { left_line, right_line }
    }
}

impl Clone for SpannedSurface {
    /// A surface between the same two lines.
    fn clone(&self) -> (copy: SpannedSurface)
        ensures
            copy == *self,
    {
        SpannedSurface { left_line: share(&self.left_line), right_line: share(&self.right_line) }
    }
}

/// The points of the outline of a band: the path shifted to the left by
/// `width_left`, or the path itself where that gives none; then the path
/// shifted to the right by `width_right`, or the path itself, backwards; then
/// the first point again.
pub open spec fn band_points(points: Seq<Point>, width_left: Number, width_right: Number) -> Option<
    Seq<Point>,
> {
    let left = match shifted_points(points, width_left.negated()) {
        Some(moved) => moved,
        None => points,
    };
    let right = match shifted_points(points, width_right) {
        Some(moved) => moved,
        None => points,
    };
    match new_path_points(right.reverse()) {
        Some(back) => new_path_points(left + back + seq![left[0]]),
        None => None,
    }
}

impl FlatSurface {
    /// The surface inside the boundary of `area`, at elevation `z`.
    pub fn from_primitive_area(area: PrimitiveArea, z: Number) -> (surface: Self)
        ensures
            surface.boundary.points() == boundary_points(area),
            surface.boundary.distances() == boundary_distances(area),
            surface.boundary.z == z,
    {
        let boundary = Rc::new(SculptLine { path: boundary_path(&area), z });
        FlatSurface { boundary }
    }

    /// The surface inside the outline of the band that reaches `width_left`
    /// to the left and `width_right` to the right of `path`, at elevation
    /// `z`. There is none where the outline makes no path or does not end
    /// where it starts.
    pub fn from_band(path: LinePath, width_left: Number, width_right: Number, z: Number) -> (r: Option<
        Self,
    >)
        requires
            valid_path(path),
        ensures
            match r {
                Some(surface) => {
                    &&& band_points(path_points(path), width_left, width_right) == Some(
                        surface.boundary.points(),
                    )
                    &&& ends_meet(surface.boundary.points())
                    &&& made_path(surface.boundary.path)
                    &&& surface.boundary.z == z
                },
                None => match band_points(path_points(path), width_left, width_right) {
                    Some(outline) => !ends_meet(outline),
                    None => true,
                },
            },
    {
        let left_path = match shift_orthogonally(&path, width_left.negated()) {
            Some(moved) => moved,
            None => clone_path(&path),
        };
        let right_forward = match shift_orthogonally(&path, width_right) {
            Some(moved) => moved,
            None => clone_path(&path),
        };
        let right_path = match reverse_path(&right_forward) {
            Some(turned) => turned,
            None => {
                return None;
            },
        };
        let mut outline = points_of(&left_path);
        let first = outline[0];
        let mut right_points = points_of(&right_path);
        outline.append(&mut right_points);
        outline.push(first);
        proof {
            let left = path_points(left_path);
            assert(outline@ =~= left + path_points(right_path) + seq![left[0]]);
        }
        let closed_path = match new_path(&outline) {
            Some(made) => made,
            None => {
                return None;
            },
        };
        if !is_closed(&closed_path) {
            return None;
        }
        Some(FlatSurface { boundary: Rc::new(SculptLine { path: closed_path, z }) })
    }

    /// The wall from the boundary to a boundary that lies `up` higher and
    /// `out` further to the right, and the surface inside that one.
    pub fn extrude(&self, up: Number, out: Number) -> (r: Option<(SpannedSurface, FlatSurface)>)
        requires
            self.boundary.wf(),
        ensures
            match r {
                Some((wall, upper)) => {
                    &&& wall.left_line == self.boundary
                    &&& wall.right_line == upper.boundary
                    &&& upper.boundary.z == self.boundary.z.plus(up)
                    &&& upper.boundary.wf()
                    &&& if out.is_zero() {
                        upper.boundary.points() == self.boundary.points()
                            && upper.boundary.distances() == self.boundary.distances()
                    } else {
                        shifted_points(self.boundary.points(), out) == Some(upper.boundary.points())
                            && made_path(upper.boundary.path)
                    }
                },
                None => !out.is_zero() && shifted_points(self.boundary.points(), out).is_none(),
            },
    {
        match SculptLine::extrude(&self.boundary, up, out) {
            Some((spanned_surface, upper_boundary)) => {
                let upper_surface = FlatSurface { boundary: upper_boundary };
                Some((spanned_surface, upper_surface))
            },
            None => None,
        }
    }
}

impl Clone for FlatSurface {
    /// A surface inside the same boundary.
    fn clone(&self) -> (copy: FlatSurface)
        ensures
            copy == *self,
    {
        FlatSurface { boundary: share(&self.boundary) }
    }
}

/// A spine: a centre line and a width, with the closed outline around them.
/// `left` and `right` run on either side of the centre, both the way the
/// centre runs; `front` joins their ends and `back` their starts; `boundary`
/// goes round: along `left`, across `front`, back along `right` and across
/// `back`.
pub struct SkeletonSpine {
    pub center: Rc<SculptLine>,
    pub width: Number,
    pub boundary: Rc<SculptLine>,
    pub left: Rc<SculptLine>,
    pub front: Rc<SculptLine>,
    pub right: Rc<SculptLine>,
    pub back: Rc<SculptLine>,
}

/// The roof over a spine: two slopes from the outline up to the ridge.
pub struct RoofSurface {
    pub spine: SkeletonSpine,
    pub height: Number,
    pub gable_depth_front: Number,
    pub gable_depth_back: Number,
}

/// The two end walls under a roof.
pub struct GableSurface {
    pub spine: SkeletonSpine,
    pub height: Number,
    pub gable_depth_front: Number,
    pub gable_depth_back: Number,
}

/// The points of the five lines around a spine.
pub struct SpineShape {
    pub left: Seq<Point>,
    pub front: Seq<Point>,
    pub right: Seq<Point>,
    pub back: Seq<Point>,
    pub boundary: Seq<Point>,
}

/// The points of two paths joined, if they can be.
pub open spec fn joined_points(first: Seq<Point>, second: Seq<Point>) -> Option<Seq<Point>> {
    match concatenated_points(first, second) {
        Ok(points) => Some(points),
        Err(_) => None,
    }
}

/// The round of four paths, if each can be joined to the next.
pub open spec fn round_points(
    left: Seq<Point>,
    front: Seq<Point>,
    right: Seq<Point>,
    back: Seq<Point>,
) -> Option<Seq<Point>> {
    match joined_points(left, front) {
        Some(first) => match joined_points(first, right) {
            Some(second) => joined_points(second, back),
            None => None,
        },
        None => None,
    }
}

/// The shape of the spine around a centre line: the centre shifted by half
/// the width to the left; the centre shifted by half the width to the right;
/// the segment from the end of the left side to the end of the right side,
/// and the one from the start of the right side to the start of the left
/// side; and the round of left side, front, right side backwards, and back.
/// There is none where a shift, the right side backwards or a segment makes
/// no path or two of them cannot be joined.
pub open spec fn spine_shape(center: Seq<Point>, width: Number) -> Option<SpineShape> {
    match shifted_points(center, width.negated().halved()) {
        Some(left) => match shifted_points(center, width.halved()) {
            Some(right) => match new_path_points(right.reverse()) {
                Some(turned) => match new_path_points(seq![right[0], left[0]]) {
                    Some(back) => match new_path_points(seq![left.last(), right.last()]) {
                        Some(front) => match round_points(left, front, turned, back) {
                            Some(boundary) => Some(
                                SpineShape { left, front, right, back, boundary },
                            ),
                            None => None,
                        },
                        None => None,
                    },
                    None => None,
                },
                None => None,
            },
            None => None,
        },
        None => None,
    }
}

/// The points of the centre line of an extruded spine: those of the old one
/// where `extend_by` is zero; else the old ones with the first pulled back
/// and the last pushed on by `extend_by` along the line, if they make a path.
pub open spec fn extended_points(center: Seq<Point>, extend_by: Number) -> Option<Seq<Point>> {
    if extend_by.is_zero() {
        Some(center)
    } else {
        respanned_points(
            center,
            center[0].pulled(start_direction_of(center), extend_by),
            center.last().pushed(end_direction_of(center), extend_by),
        )
    }
}

/// The two paths joined, if they can be.
pub fn join_paths(first: &LinePath, second: &LinePath) -> (joined: Option<LinePath>)
    requires
        valid_path(*first),
        valid_path(*second),
    ensures
        match joined {
            Some(path) => {
                &&& joined_points(path_points(*first), path_points(*second)) == Some(
                    path_points(path),
                )
                &&& made_path(path)
                &&& path_points(path)[0] == path_points(*first)[0]
                &&& same_place(path_points(path).last(), path_points(*second).last())
            },
            None => joined_points(path_points(*first), path_points(*second)).is_none(),
        },
{
    match concat(first, second) {
        Ok(path) => Some(path),
        Err(_) => None,
    }
}

/// The path of two points from `from` to the place of `to`, if the two
/// points make one.
pub fn segment_path(from: Point, to: Point) -> (made: Option<LinePath>)
    ensures
        match made {
            Some(path) => {
                &&& new_path_points(seq![from, to]) == Some(path_points(path))
                &&& made_path(path)
                &&& path_points(path).len() == 2
                &&& path_points(path)[0] == from
                &&& same_place(path_points(path)[1], to)
            },
            None => new_path_points(seq![from, to]).is_none(),
        },
{
    let mut points: Vec<Point> = Vec::new();
    points.push(from);
    points.push(to);
    proof {
        assert(points@ =~= seq![from, to]);
    }
    new_path(&points)
}

impl SkeletonSpine {
    /// The points of the five lines around the spine.
    pub open spec fn shape(&self) -> SpineShape {
        SpineShape {
            left: self.left.points(),
            front: self.front.points(),
            right: self.right.points(),
            back: self.back.points(),
            boundary: self.boundary.points(),
        }
    }

    /// Each line around the spine runs along a path made from its points,
    /// at the elevation of the centre line.
    pub open spec fn lines_made(&self) -> bool {
        &&& made_path(self.left.path) && self.left.z == self.center.z
        &&& made_path(self.front.path) && self.front.z == self.center.z
        &&& made_path(self.right.path) && self.right.z == self.center.z
        &&& made_path(self.back.path) && self.back.z == self.center.z
        &&& made_path(self.boundary.path) && self.boundary.z == self.center.z
    }

    /// Neither side has more points than the centre line: a shift moves
    /// each point once and keeps some or all of them.
    pub open spec fn sides_bounded(&self) -> bool {
        &&& self.left.points().len() <= self.center.points().len()
        &&& self.right.points().len() <= self.center.points().len()
    }

    /// The front joins the end of the left side to the place of the end of
    /// the right side, the back the start of the right side to the place of
    /// the start of the left side, each with two points; and the boundary
    /// starts at the start of the left side and ends at the place where it
    /// starts.
    pub open spec fn ends_joined(&self) -> bool {
        let left = self.left.points();
        let right = self.right.points();
        let front = self.front.points();
        let back = self.back.points();
        let boundary = self.boundary.points();
        &&& front.len() == 2 && front[0] == left.last() && same_place(front[1], right.last())
        &&& back.len() == 2 && back[0] == right[0] && same_place(back[1], left[0])
        &&& boundary[0] == left[0] && same_place(boundary.last(), boundary[0])
    }

    /// The spine of the given width around `center`, if its shape exists: a
    /// spine whose outline is closed.
    pub fn new(center: Rc<SculptLine>, width: Number) -> (r: Option<SkeletonSpine>)
        requires
            center.wf(),
        ensures
            match r {
                Some(spine) => {
                    &&& spine_shape(center.points(), width) == Some(spine.shape())
                    &&& spine.center == center
                    &&& spine.width == width
                    &&& spine.lines_made()
                    &&& spine.ends_joined()
                    &&& spine.sides_bounded()
                },
                None => spine_shape(center.points(), width).is_none(),
            },
    {
        let left = match shift_orthogonally(&center.path, width.negated().halved()) {
            Some(path) => path,
            None => {
                return None;
            },
        };
        let right = match shift_orthogonally(&center.path, width.halved()) {
            Some(path) => path,
            None => {
                return None;
            },
        };
        let turned = match reverse_path(&right) {
            Some(path) => path,
            None => {
                return None;
            },
        };
        let left_points = points_of(&left);
        let right_points = points_of(&right);
        let back = match segment_path(right_points[0], left_points[0]) {
            Some(path) => path,
            None => {
                return None;
            },
        };
        let front = match segment_path(
            left_points[left_points.len() - 1],
            right_points[right_points.len() - 1],
        ) {
            Some(path) => path,
            None => {
                return None;
            },
        };
        let left_and_front = match join_paths(&left, &front) {
            Some(path) => path,
            None => {
                return None;
            },
        };
        let all_but_back = match join_paths(&left_and_front, &turned) {
            Some(path) => path,
            None => {
                return None;
            },
        };
        let boundary = match join_paths(&all_but_back, &back) {
            Some(path) => path,
            None => {
                return None;
            },
        };
        let z = center.z;
        Some(
            SkeletonSpine {
                width,
                boundary: Rc::new(SculptLine::new(boundary, z)),
                left: Rc::new(SculptLine::new(left, z)),
                front: Rc::new(SculptLine::new(front, z)),
                right: Rc::new(SculptLine::new(right, z)),
                back: Rc::new(SculptLine::new(back, z)),
                center,
            },
        )
    }

    /// The wall from the outline of this spine to the outline of a new
    /// spine, and that spine: its centre line `up` higher and longer by
    /// `extend_by` at either end, its width greater by `widen_by`. The centre
    /// line is shared where neither `up` nor `extend_by` moves it; where
    /// `extend_by` moves it, it starts at the old start pulled back and ends
    /// at the place of the old end pushed on.
    pub fn extrude(&self, up: Number, widen_by: Number, extend_by: Number) -> (r: Option<
        (SpannedSurface, Self),
    >)
        requires
            self.center.wf(),
        ensures
            match r {
                Some((wall, spine)) => {
                    &&& wall.left_line == self.boundary
                    &&& wall.right_line == spine.boundary
                    &&& extended_points(self.center.points(), extend_by) == Some(
                        spine.center.points(),
                    )
                    &&& spine.center.z == if extend_by.is_zero() && up.is_zero() {
                        self.center.z
                    } else {
                        self.center.z.plus(up)
                    }
                    &&& !extend_by.is_zero() ==> {
                        let old_points = self.center.points();
                        let new_points = spine.center.points();
                        &&& new_points[0] == old_points[0].pulled(
                            start_direction_of(old_points),
                            extend_by,
                        )
                        &&& same_place(
                            new_points.last(),
                            old_points.last().pushed(end_direction_of(old_points), extend_by),
                        )
                    }
                    &&& spine.width == self.width.plus(widen_by)
                    &&& spine_shape(spine.center.points(), spine.width) == Some(spine.shape())
                    &&& spine.center.wf()
                    &&& spine.lines_made()
                    &&& spine.ends_joined()
                    &&& spine.sides_bounded()
                },
                None => match extended_points(self.center.points(), extend_by) {
                    Some(center) => spine_shape(center, self.width.plus(widen_by)).is_none(),
                    None => true,
                },
            },
    {
        let new_center = if extend_by.is_zero() {
            if up.is_zero() {
                share(&self.center)
            } else {
                Rc::new(SculptLine::new(clone_path(&self.center.path), self.center.z.plus(up)))
            }
        } else {
            let points = points_of(&self.center.path);
            let new_start = points[0].pulled(start_direction(&self.center.path), extend_by);
            let new_end = points[points.len() - 1].pushed(end_direction(&self.center.path), extend_by);
            match with_new_start_and_end(&self.center.path, new_start, new_end) {
                Some(path) => Rc::new(SculptLine::new(path, self.center.z.plus(up))),
                None => {
                    return None;
                },
            }
        };
        match SkeletonSpine::new(new_center, self.width.plus(widen_by)) {
            Some(new_spine) => {
                let surface = SpannedSurface::new(share(&self.boundary), share(&new_spine.boundary));
                Some((surface, new_spine))
            },
            None => None,
        }
    }

    /// The roof of the given height over the spine and the gables under it,
    /// the ridge drawn in from either end by the gable depths.
    pub fn roof(&self, height: Number, gable_depth_front: Number, gable_depth_back: Number) -> (r: (
        RoofSurface,
        GableSurface,
    ))
        ensures
            r.0.spine == *self,
            r.0.height == height,
            r.0.gable_depth_front == gable_depth_front,
            r.0.gable_depth_back == gable_depth_back,
            r.1.spine == *self,
            r.1.height == height,
            r.1.gable_depth_front == gable_depth_front,
            r.1.gable_depth_back == gable_depth_back,
    {
        (
            RoofSurface { spine: self.clone(), height, gable_depth_front, gable_depth_back },
            GableSurface { spine: self.clone(), height, gable_depth_front, gable_depth_back },
        )
    }

    /// The surface inside the outline of the spine.
    pub fn to_flat_surface(&self) -> (surface: FlatSurface)
        ensures
            surface.boundary == self.boundary,
    {
        FlatSurface { boundary: share(&self.boundary) }
    }
}

impl Clone for SkeletonSpine {
    /// A spine of the same lines.
    fn clone(&self) -> (copy: SkeletonSpine)
        ensures
            copy == *self,
    {
        SkeletonSpine {
            center: share(&self.center),
            width: self.width,
            boundary: share(&self.boundary),
            left: share(&self.left),
            front: share(&self.front),
            right: share(&self.right),
            back: share(&self.back),
        }
    }
}

/// A surface of one of the four kinds.
pub enum Surface {
    Spanned(SpannedSurface),
    Flat(FlatSurface),
    Roof(RoofSurface),
    Gable(GableSurface),
}

/// An ordered list of surfaces, triangulated together.
pub struct Sculpture(Vec<Surface>);

/// The vertex above `point` at elevation `z`.
pub open spec fn vertex_above(point: Point, z: Number) -> Vertex {
    vertex_at(point.x, point.y, z)
}

/// The vertex above `point` at elevation `z`.
pub fn to_vertex(point: &Point, z: Number) -> (vertex: Vertex)
    ensures
        vertex == vertex_above(*point, z),
{
    Vertex { position: [point.x, point.y, z] }
}

/// The vertices above the points, all at elevation `z`.
pub open spec fn line_vertices(points: Seq<Point>, z: Number) -> Seq<Vertex> {
    Seq::new(points.len(), |i: int| vertex_above(points[i], z))
}

/// Appends the vertices above the points at elevation `z`.
pub fn push_vertices(vertices: &mut Vec<Vertex>, points: &Vec<Point>, z: Number)
    ensures
        final(vertices)@ == old(vertices)@ + line_vertices(points@, z),
{
    let mut i: usize = 0;
    while i < points.len()
        invariant
            i <= points.len(),
            vertices@ == old(vertices)@ + line_vertices(points@, z).subrange(0, i as int),
        decreases points.len() - i,
    {
        vertices.push(to_vertex(&points[i], z));
        i = i + 1;
        proof {
            assert(vertices@ =~= old(vertices)@ + line_vertices(points@, z).subrange(0, i as int));
        }
    }
    proof {
        assert(line_vertices(points@, z).subrange(0, points.len() as int) =~= line_vertices(
            points@,
            z,
        ));
    }
}

impl SpannedSurface {
    /// The mesh of the surface: the vertices of the left line, then those of
    /// the right line, each at the elevation of its line, and the strip from
    /// the one run to the other.
    pub open spec fn mesh(&self) -> MeshView {
        let left = self.left_line.points();
        let right = self.right_line.points();
        MeshView {
            vertices: line_vertices(left, self.left_line.z) + line_vertices(
                right,
                self.right_line.z,
            ),
            indices: strip_spec(0, left.len() as int, left.len() as int, right.len() as int, false),
        }
    }

    /// The mesh can be made: a left line of two or more points has a right
    /// line to pair with, and the vertices stay within the index limit.
    pub open spec fn meshable(&self) -> bool {
        let left = self.left_line.points();
        let right = self.right_line.points();
        (left.len() >= 2 ==> right.len() >= 1) && left.len() + right.len() <= INDEX_LIMIT
    }

    /// The mesh of the surface.
    pub fn to_mesh(&self) -> (mesh: Mesh)
        requires
            self.meshable(),
        ensures
            mesh@ == self.mesh(),
    {
        let left_points = points_of(&self.left_line.path);
        let right_points = points_of(&self.right_line.path);
        let mut vertices: Vec<Vertex> = Vec::new();
        push_vertices(&mut vertices, &left_points, self.left_line.z);
        push_vertices(&mut vertices, &right_points, self.right_line.z);
        let indices = strip_indices(
            0,
            left_points.len(),
            left_points.len(),
            right_points.len(),
            false,
        );
        proof {
            assert(vertices@ =~= self.mesh().vertices);
        }
        Mesh::new(vertices, indices)
    }

    /// The number of vertices of the mesh, if the surface can be meshed.
    pub fn check_meshable(&self) -> (r: Option<usize>)
        ensures
            match r {
                Some(count) => self.meshable() && count == self.mesh().vertices.len(),
                None => !self.meshable(),
            },
    {
        let left_len = points_of(&self.left_line.path).len();
        let right_len = points_of(&self.right_line.path).len();
        if left_len >= 2 && right_len < 1 {
            None
        } else if left_len <= INDEX_LIMIT && right_len <= INDEX_LIMIT - left_len {
            Some(left_len + right_len)
        } else {
            None
        }
    }
}

impl FlatSurface {
    /// The events that draw the boundary: what a fill engine has to be given
    /// to fill the surface.
    pub open spec fn outline(&self) -> Seq<PathEvent> {
        outline_events(self.boundary.points())
    }

    /// The mesh of the surface, given the fill of its boundary: the fill
    /// laid flat at the elevation of the boundary.
    pub open spec fn mesh(&self, fill: FillView) -> MeshView {
        fill_mesh(fill, self.boundary.z)
    }

    /// The events that draw the boundary.
    pub fn events(&self) -> (events: Vec<PathEvent>)
        ensures
            events@ == self.outline(),
    {
        let points = points_of(&self.boundary.path);
        let mut events: Vec<PathEvent> = Vec::new();
        push_outline(&mut events, &points);
        proof {
            assert(events@ =~= outline_events(points@));
        }
        events
    }

    /// The mesh of the surface, given the fill of its boundary.
    pub fn to_mesh(&self, fill: &Fill) -> (mesh: Mesh)
        ensures
            mesh@ == self.mesh(fill@),
    {
        fill.lift(self.boundary.z)
    }
}

/// Whether the path has two points or more and a distance for each.
pub fn check_valid_path(path: &LinePath) -> (r: bool)
    ensures
        r == valid_path(*path),
{
    let points = points_of(path);
    let distances = distances_of(path);
    points.len() >= 2 && distances.len() == points.len()
}

/// The points of the ridge over a centre line: the point `gable_depth_back`
/// along it, its points but for the first and the last, and the point
/// `gable_depth_front` before its end.
pub open spec fn ridge_points(center: &SculptLine, gable_depth_front: Number, gable_depth_back: Number) -> Seq<
    Point,
> {
    let points = center.points();
    let distances = center.distances();
    seq![point_along(points, distances, gable_depth_back)] + points.subrange(
        1,
        points.len() - 1,
    ) + seq![point_along(points, distances, distances.last().minus(gable_depth_front))]
}

/// The point of the ridge above the back end of a centre line.
pub fn ridge_back(center: &SculptLine, gable_depth_back: Number) -> (point: Point)
    requires
        center.wf(),
    ensures
        point == point_along(center.points(), center.distances(), gable_depth_back),
{
    along(&center.path, gable_depth_back)
}

/// The point of the ridge above the front end of a centre line.
pub fn ridge_front(center: &SculptLine, gable_depth_front: Number) -> (point: Point)
    requires
        center.wf(),
    ensures
        point == point_along(
            center.points(),
            center.distances(),
            center.distances().last().minus(gable_depth_front),
        ),
{
    along(&center.path, path_length(&center.path).minus(gable_depth_front))
}

impl RoofSurface {
    /// The points of the ridge.
    pub open spec fn ridge(&self) -> Seq<Point> {
        ridge_points(&self.spine.center, self.gable_depth_front, self.gable_depth_back)
    }

    /// The corners of the outline of the spine, in the order in which the
    /// outline goes round: the points of the left side, then those of the
    /// right side backwards. The point that closes the outline is none of
    /// them.
    pub open spec fn corners(&self) -> Seq<Point> {
        self.spine.left.points() + self.spine.right.points().reverse()
    }

    /// The mesh of the roof: the corners of the outline at the elevation of
    /// the centre line, then the points of the ridge, higher by the height
    /// of the roof; the strip from the left half of the outline to the
    /// ridge, and the strip from the right half, which runs backwards, to
    /// the ridge taken from its far end.
    pub open spec fn mesh(&self) -> MeshView {
        let corners = self.corners();
        let ridge = self.ridge();
        let left_len = self.spine.left.points().len() as int;
        let right_len = self.spine.right.points().len() as int;
        let base = self.spine.center.z;
        MeshView {
            vertices: line_vertices(corners, base) + line_vertices(ridge, base.plus(self.height)),
            indices: strip_spec(0, left_len, left_len + right_len, ridge.len() as int, false)
                + strip_spec(left_len, right_len, left_len + right_len, ridge.len() as int, true),
        }
    }

    /// The mesh can be made: the centre line is valid, and the corners and
    /// the ridge together stay within the index limit.
    pub open spec fn meshable(&self) -> bool {
        &&& self.spine.center.wf()
        &&& self.spine.left.points().len() + self.spine.right.points().len()
            + self.spine.center.points().len() <= INDEX_LIMIT
    }

    /// The mesh of the roof.
    pub fn to_mesh(&self) -> (mesh: Mesh)
        requires
            self.meshable(),
        ensures
            mesh@ == self.mesh(),
    {
        let center = &self.spine.center;
        let center_points = points_of(&center.path);
        let mut ridge: Vec<Point> = Vec::new();
        ridge.push(ridge_back(center, self.gable_depth_back));
        let mut i: usize = 1;
        while i < center_points.len() - 1
            invariant
                center_points.len() >= 2,
                1 <= i <= center_points.len() - 1,
                ridge@ == seq![
                    point_along(center.points(), center.distances(), self.gable_depth_back),
                ] + center_points@.subrange(1, i as int),
            decreases center_points.len() - i,
        {
            ridge.push(center_points[i]);
            i = i + 1;
            proof {
                assert(ridge@ =~= seq![
                    point_along(center.points(), center.distances(), self.gable_depth_back),
                ] + center_points@.subrange(1, i as int));
            }
        }
        ridge.push(ridge_front(center, self.gable_depth_front));
        proof {
            assert(ridge@ =~= self.ridge());
        }
        let left_points = points_of(&self.spine.left.path);
        let right_points = points_of(&self.spine.right.path);
        let right_backwards = reversed(&right_points);
        let left_len = left_points.len();
        let right_len = right_points.len();
        let base = center.z;
        let mut vertices: Vec<Vertex> = Vec::new();
        push_vertices(&mut vertices, &left_points, base);
        push_vertices(&mut vertices, &right_backwards, base);
        push_vertices(&mut vertices, &ridge, base.plus(self.height));
        let mut indices = strip_indices(0, left_len, left_len + right_len, ridge.len(), false);
        let mut right_strip = strip_indices(
            left_len,
            right_len,
            left_len + right_len,
            ridge.len(),
            true,
        );
        indices.append(&mut right_strip);
        proof {
            assert(line_vertices(self.corners(), base) =~= line_vertices(left_points@, base)
                + line_vertices(right_backwards@, base));
            assert(vertices@ =~= self.mesh().vertices);
            assert(indices@ =~= self.mesh().indices);
        }
        Mesh::new(vertices, indices)
    }

    /// The number of vertices of the mesh, if the roof can be meshed.
    pub fn check_meshable(&self) -> (r: Option<usize>)
        ensures
            match r {
                Some(count) => self.meshable() && count == self.mesh().vertices.len(),
                None => !self.meshable(),
            },
    {
        if !check_valid_path(&self.spine.center.path) {
            return None;
        }
        let center_len = points_of(&self.spine.center.path).len();
        let left_len = points_of(&self.spine.left.path).len();
        let right_len = points_of(&self.spine.right.path).len();
        if left_len <= INDEX_LIMIT && right_len <= INDEX_LIMIT - left_len && center_len
            <= INDEX_LIMIT - left_len - right_len {
            Some(left_len + right_len + center_len)
        } else {
            None
        }
    }
}

impl GableSurface {
    /// The mesh of the gables, one triangle at either end of the spine, the
    /// back end first: the corner of the left side and that of the right
    /// side at the elevation of the centre line, and the end of the ridge,
    /// higher by the height of the roof.
    pub open spec fn mesh(&self) -> MeshView {
        let center = self.spine.center;
        let left = self.spine.left.points();
        let right = self.spine.right.points();
        let low = center.z;
        let high = low.plus(self.height);
        let ridge = ridge_points(&center, self.gable_depth_front, self.gable_depth_back);
        MeshView {
            vertices: seq![
                vertex_above(left[0], low),
                vertex_above(right[0], low),
                vertex_above(ridge[0], high),
                vertex_above(left.last(), low),
                vertex_above(right.last(), low),
                vertex_above(ridge.last(), high),
            ],
            indices: seq![0u16, 1u16, 2u16, 3u16, 4u16, 5u16],
        }
    }

    /// The mesh can be made: the centre line is valid and either side has a
    /// point.
    pub open spec fn meshable(&self) -> bool {
        &&& self.spine.center.wf()
        &&& self.spine.left.points().len() >= 1
        &&& self.spine.right.points().len() >= 1
    }

    /// The mesh of the gables.
    pub fn to_mesh(&self) -> (mesh: Mesh)
        requires
            self.meshable(),
        ensures
            mesh@ == self.mesh(),
    {
        let center = &self.spine.center;
        let center_back = ridge_back(center, self.gable_depth_back);
        let center_front = ridge_front(center, self.gable_depth_front);
        let left_points = points_of(&self.spine.left.path);
        let right_points = points_of(&self.spine.right.path);
        let low_z = center.z;
        let high_z = low_z.plus(self.height);
        let mut vertices: Vec<Vertex> = Vec::new();
        vertices.push(to_vertex(&left_points[0], low_z));
        vertices.push(to_vertex(&right_points[0], low_z));
        vertices.push(to_vertex(&center_back, high_z));
        vertices.push(to_vertex(&left_points[left_points.len() - 1], low_z));
        vertices.push(to_vertex(&right_points[right_points.len() - 1], low_z));
        vertices.push(to_vertex(&center_front, high_z));
        let mut indices: Vec<u16> = Vec::new();
        indices.push(0);
        indices.push(1);
        indices.push(2);
        indices.push(3);
        indices.push(4);
        indices.push(5);
        proof {
            assert(vertices@ =~= self.mesh().vertices);
            assert(indices@ =~= self.mesh().indices);
        }
        Mesh::new(vertices, indices)
    }

    /// The number of vertices of the mesh, if the gables can be meshed.
    pub fn check_meshable(&self) -> (r: Option<usize>)
        ensures
            match r {
                Some(count) => self.meshable() && count == self.mesh().vertices.len(),
                None => !self.meshable(),
            },
    {
        if !check_valid_path(&self.spine.center.path) {
            return None;
        }
        let left_len = points_of(&self.spine.left.path).len();
        let right_len = points_of(&self.spine.right.path).len();
        if left_len >= 1 && right_len >= 1 {
            Some(6)
        } else {
            None
        }
    }
}

/// What a fill holds, if there is one.
pub open spec fn fill_view(fill: Option<Fill>) -> Option<FillView> {
    match fill {
        Some(fill) => Some(fill@),
        None => None,
    }
}

/// The fill given for the surface at place `i`: the one at that place among
/// the fills, none where the fills do not reach so far.
pub open spec fn fill_at(fills: Seq<Option<Fill>>, i: int) -> Option<FillView> {
    if 0 <= i < fills.len() {
        fill_view(fills[i])
    } else {
        None
    }
}

impl Surface {
    /// The events that a fill engine has to be given for the surface: those
    /// that draw the boundary of a flat surface, none for another surface.
    pub open spec fn outline(&self) -> Option<Seq<PathEvent>> {
        match self {
            Surface::Flat(surface) => Some(surface.outline()),
            _ => None,
        }
    }

    /// The mesh of the surface, given what was filled for it. A flat surface
    /// has none without a fill; another surface takes no notice of one.
    pub open spec fn mesh(&self, fill: Option<FillView>) -> Option<MeshView> {
        match self {
            Surface::Spanned(surface) => Some(surface.mesh()),
            Surface::Flat(surface) => match fill {
                Some(fill) => Some(surface.mesh(fill)),
                None => None,
            },
            Surface::Roof(surface) => Some(surface.mesh()),
            Surface::Gable(surface) => Some(surface.mesh()),
        }
    }

    /// The mesh of the surface can be made: for a flat surface, there is a
    /// fill and it is usable.
    pub open spec fn meshable(&self, fill: Option<FillView>) -> bool {
        match self {
            Surface::Spanned(surface) => surface.meshable(),
            Surface::Flat(_) => match fill {
                Some(fill) => fill.usable(),
                None => false,
            },
            Surface::Roof(surface) => surface.meshable(),
            Surface::Gable(surface) => surface.meshable(),
        }
    }

    /// The number of vertices that the surface adds to a mesh.
    pub open spec fn vertex_count(&self, fill: Option<FillView>) -> nat {
        match self {
            Surface::Spanned(surface) => surface.left_line.points().len()
                + surface.right_line.points().len(),
            Surface::Flat(_) => match fill {
                Some(fill) => fill.points.len(),
                None => 0,
            },
            Surface::Roof(surface) => surface.spine.left.points().len()
                + surface.spine.right.points().len() + surface.ridge().len(),
            Surface::Gable(_) => 6,
        }
    }

    /// The events that a fill engine has to be given for the surface.
    pub fn events(&self) -> (events: Option<Vec<PathEvent>>)
        ensures
            match events {
                Some(events) => self.outline() == Some(events@),
                None => self.outline().is_none(),
            },
    {
        match self {
            Surface::Flat(surface) => Some(surface.events()),
            _ => None,
        }
    }

    /// The mesh of the surface, given what was filled for it.
    pub fn to_mesh(&self, fill: &Option<Fill>) -> (mesh: Mesh)
        requires
            self.meshable(fill_view(*fill)),
        ensures
            self.mesh(fill_view(*fill)) == Some(mesh@),
    {
        match self {
            Surface::Spanned(surface) => surface.to_mesh(),
            Surface::Flat(surface) => match fill {
                Some(fill) => surface.to_mesh(fill),
                None => Mesh::empty(),
            },
            Surface::Roof(surface) => surface.to_mesh(),
            Surface::Gable(surface) => surface.to_mesh(),
        }
    }

    /// The number of vertices of the mesh, if the surface can be meshed.
    pub fn check_meshable(&self, fill: &Option<Fill>) -> (r: Option<usize>)
        ensures
            match r {
                Some(count) => self.meshable(fill_view(*fill)) && count == self.mesh(
                    fill_view(*fill),
                ).unwrap().vertices.len(),
                None => !self.meshable(fill_view(*fill)),
            },
    {
        match self {
            Surface::Spanned(surface) => surface.check_meshable(),
            Surface::Flat(_) => match fill {
                Some(fill) => if fill.is_usable() {
                    Some(fill.points.len())
                } else {
                    None
                },
                None => None,
            },
            Surface::Roof(surface) => surface.check_meshable(),
            Surface::Gable(surface) => surface.check_meshable(),
        }
    }
}

/// The meshes of the surfaces joined in order, each flat surface with the
/// fill given at its place; a flat surface without a fill adds nothing.
pub open spec fn sculpture_mesh(surfaces: Seq<Surface>, fills: Seq<Option<Fill>>) -> MeshView
    decreases surfaces.len(),
{
    if surfaces.len() == 0 {
        MeshView::empty()
    } else {
        match surfaces.last().mesh(fill_at(fills, surfaces.len() - 1)) {
            Some(mesh) => sculpture_mesh(surfaces.drop_last(), fills).join(mesh),
            None => sculpture_mesh(surfaces.drop_last(), fills),
        }
    }
}

/// The vertices that the surfaces add to a mesh, counted together.
pub open spec fn sculpture_vertex_count(surfaces: Seq<Surface>, fills: Seq<Option<Fill>>) -> nat
    decreases surfaces.len(),
{
    if surfaces.len() == 0 {
        0
    } else {
        sculpture_vertex_count(surfaces.drop_last(), fills) + surfaces.last().vertex_count(
            fill_at(fills, surfaces.len() - 1),
        )
    }
}

/// The surfaces can be meshed together with the fills: each of them can be
/// meshed, a flat one with the fill at its place, and the vertices of all
/// stay within the index limit.
pub open spec fn sculpture_meshable(surfaces: Seq<Surface>, fills: Seq<Option<Fill>>) -> bool {
    &&& forall|i: int|
        0 <= i < surfaces.len() ==> (#[trigger] surfaces[i]).meshable(fill_at(fills, i))
    &&& sculpture_mesh(surfaces, fills).vertices.len() <= INDEX_LIMIT
}

impl View for Sculpture {
    type V = Seq<Surface>;

    closed spec fn view(&self) -> Seq<Surface> {
        self.0@
    }
}

impl Sculpture {
    /// The sculpture of the given surfaces, in their order.
    pub fn new(surfaces: Vec<Surface>) -> (sculpture: Self)
        ensures
            sculpture@ == surfaces@,
    {
        Sculpture(surfaces)
    }

    /// Adds a surface after the others.
    pub fn push(&mut self, surface: Surface)
        ensures
            final(self)@ == old(self)@.push(surface),
    {
        self.0.push(surface);
    }

    /// What has to be filled before the sculpture can be meshed: for each
    /// surface, in order, the events that draw the boundary of a flat
    /// surface, and nothing for a surface of another kind.
    pub fn outlines(&self) -> (outlines: Vec<Option<Vec<PathEvent>>>)
        ensures
            outlines.len() == self@.len(),
            forall|i: int|
                0 <= i < self@.len() ==> match #[trigger] outlines[i] {
                    Some(events) => self@[i].outline() == Some(events@),
                    None => self@[i].outline().is_none(),
                },
    {
        let mut outlines: Vec<Option<Vec<PathEvent>>> = Vec::new();
        let mut i: usize = 0;
        while i < self.0.len()
            invariant
                i <= self.0.len(),
                outlines.len() == i,
                forall|j: int|
                    0 <= j < i ==> match #[trigger] outlines[j] {
                        Some(events) => self@[j].outline() == Some(events@),
                        None => self@[j].outline().is_none(),
                    },
            decreases self.0.len() - i,
        {
            outlines.push(self.0[i].events());
            i = i + 1;
        }
        outlines
    }

    /// The mesh of the sculpture: the meshes of its surfaces, joined in
    /// their order. The fill of each flat surface is taken from `fills`, at
    /// the place of the surface.
    pub fn to_mesh(&self, fills: &Vec<Option<Fill>>) -> (mesh: Mesh)
        requires
            sculpture_meshable(self@, fills@),
        ensures
            mesh@ == sculpture_mesh(self@, fills@),
            mesh@.index_safe(),
            mesh@.triangulated(),
            mesh@.vertices.len() == sculpture_vertex_count(self@, fills@),
    {
        let mut mesh = Mesh::empty();
        let no_fill: Option<Fill> = None;
        let mut i: usize = 0;
        proof {
            assert(self@.subrange(0, 0) =~= Seq::<Surface>::empty());
        }
        while i < self.0.len()
            invariant
                i <= self.0.len(),
                no_fill.is_none(),
                sculpture_meshable(self@, fills@),
                mesh@ == sculpture_mesh(self@.subrange(0, i as int), fills@),
            decreases self.0.len() - i,
        {
            let fill = if i < fills.len() {
                &fills[i]
            } else {
                &no_fill
            };
            let surface_mesh = self.0[i].to_mesh(fill);
            proof {
                let before = self@.subrange(0, i as int);
                let with = self@.subrange(0, i + 1);
                assert(with.drop_last() =~= before);
                assert(with.last() == self@[i as int]);
                lemma_surface_mesh_safe(self@[i as int], fill_at(fills@, i as int));
                lemma_sculpture_mesh_prefix(self@, fills@, i as int);
                lemma_sculpture_mesh_prefix(self@, fills@, i + 1);
                lemma_sculpture_mesh_safe(before, fills@);
                lemma_join(mesh@, surface_mesh@);
            }
            mesh.add_assign(&surface_mesh);
            i = i + 1;
        }
        proof {
            assert(self@.subrange(0, self.0.len() as int) =~= self@);
            lemma_sculpture_mesh_safe(self@, fills@);
            lemma_sculpture_vertex_count(self@, fills@);
        }
        mesh
    }

    /// Whether the sculpture can be meshed with the fills.
    pub fn check_meshable(&self, fills: &Vec<Option<Fill>>) -> (r: bool)
        ensures
            r == sculpture_meshable(self@, fills@),
    {
        let mut total: usize = 0;
        let no_fill: Option<Fill> = None;
        let mut i: usize = 0;
        proof {
            assert(self@.subrange(0, 0) =~= Seq::<Surface>::empty());
        }
        while i < self.0.len()
            invariant
                i <= self.0.len(),
                no_fill.is_none(),
                total <= INDEX_LIMIT,
                total == sculpture_mesh(self@.subrange(0, i as int), fills@).vertices.len(),
                forall|j: int| 0 <= j < i ==> (#[trigger] self@[j]).meshable(fill_at(fills@, j)),
            decreases self.0.len() - i,
        {
            proof {
                let before = self@.subrange(0, i as int);
                let with = self@.subrange(0, i + 1);
                assert(with.drop_last() =~= before);
                assert(with.last() == self@[i as int]);
                lemma_sculpture_mesh_prefix(self@, fills@, i + 1);
            }
            let fill = if i < fills.len() {
                &fills[i]
            } else {
                &no_fill
            };
            match self.0[i].check_meshable(fill) {
                Some(count) => {
                    proof {
                        lemma_join(
                            sculpture_mesh(self@.subrange(0, i as int), fills@),
                            self@[i as int].mesh(fill_at(fills@, i as int)).unwrap(),
                        );
                    }
                    if count > INDEX_LIMIT - total {
                        return false;
                    }
                    total = total + count;
                },
                None => {
                    return false;
                },
            }
            i = i + 1;
        }
        proof {
            assert(self@.subrange(0, self.0.len() as int) =~= self@);
        }
        true
    }

    /// The mesh of the sculpture with the fills, if it can be meshed.
    pub fn try_to_mesh(&self, fills: &Vec<Option<Fill>>) -> (r: Option<Mesh>)
        ensures
            match r {
                Some(mesh) => sculpture_meshable(self@, fills@) && mesh@ == sculpture_mesh(
                    self@,
                    fills@,
                ),
                None => !sculpture_meshable(self@, fills@),
            },
    {
        if self.check_meshable(fills) {
            Some(self.to_mesh(fills))
        } else {
            None
        }
    }
}

/// A surface that can be meshed has a mesh, of as many vertices as the
/// surface counts, in which every index points at a vertex and the indices
/// come in threes.
pub proof fn lemma_surface_mesh_safe(surface: Surface, fill: Option<FillView>)
    requires
        surface.meshable(fill),
    ensures
        surface.mesh(fill).is_some(),
        surface.mesh(fill).unwrap().index_safe(),
        surface.mesh(fill).unwrap().triangulated(),
        surface.mesh(fill).unwrap().vertices.len() == surface.vertex_count(fill),
        surface.mesh(fill).unwrap().vertices.len() <= INDEX_LIMIT,
{
    match surface {
        Surface::Spanned(spanned) => {
            let left_len = spanned.left_line.points().len() as int;
            let right_len = spanned.right_line.points().len() as int;
            lemma_strip_in_runs(0, left_len, left_len, right_len, false);
        },
        Surface::Flat(flat) => {
            lemma_fill_mesh(fill.unwrap(), flat.boundary.z);
        },
        Surface::Roof(roof) => {
            let left_len = roof.spine.left.points().len() as int;
            let right_len = roof.spine.right.points().len() as int;
            let boundary_len = left_len + right_len;
            let ridge_len = roof.ridge().len() as int;
            let left_strip = strip_spec(0, left_len, boundary_len, ridge_len, false);
            let right_strip = strip_spec(left_len, right_len, boundary_len, ridge_len, true);
            lemma_strip_in_runs(0, left_len, boundary_len, ridge_len, false);
            lemma_strip_in_runs(left_len, right_len, boundary_len, ridge_len, true);
            let mesh = roof.mesh();
            assert forall|k: int| 0 <= k < mesh.indices.len() implies (#[trigger] mesh.indices[k])
                < mesh.vertices.len() by {
                if k < left_strip.len() {
                    assert(mesh.indices[k] == left_strip[k]);
                } else {
                    assert(mesh.indices[k] == right_strip[k - left_strip.len()]);
                }
            }
        },
        Surface::Gable(_) => {},
    }
}

/// The mesh of the first `n` surfaces has no more vertices than the mesh of
/// all of them.
pub proof fn lemma_sculpture_mesh_prefix(surfaces: Seq<Surface>, fills: Seq<Option<Fill>>, n: int)
    requires
        0 <= n <= surfaces.len(),
    ensures
        sculpture_mesh(surfaces.subrange(0, n), fills).vertices.len() <= sculpture_mesh(
            surfaces,
            fills,
        ).vertices.len(),
    decreases surfaces.len(),
{
    if n < surfaces.len() {
        lemma_sculpture_mesh_prefix(surfaces.drop_last(), fills, n);
        assert(surfaces.drop_last().subrange(0, n) =~= surfaces.subrange(0, n));
    } else {
        assert(surfaces.subrange(0, n) =~= surfaces);
    }
}

/// Index safety. In the mesh of surfaces that can be meshed together every
/// index points at a vertex, and the indices come in threes.
pub proof fn lemma_sculpture_mesh_safe(surfaces: Seq<Surface>, fills: Seq<Option<Fill>>)
    requires
        sculpture_meshable(surfaces, fills),
    ensures
        sculpture_mesh(surfaces, fills).index_safe(),
        sculpture_mesh(surfaces, fills).triangulated(),
    decreases surfaces.len(),
{
    if surfaces.len() > 0 {
        let before = surfaces.drop_last();
        let fill = fill_at(fills, surfaces.len() - 1);
        lemma_sculpture_mesh_prefix(surfaces, fills, surfaces.len() - 1);
        assert(surfaces.subrange(0, surfaces.len() - 1) =~= before);
        assert forall|i: int| 0 <= i < before.len() implies (#[trigger] before[i]).meshable(
            fill_at(fills, i),
        ) by {
            assert(before[i] == surfaces[i]);
        }
        lemma_sculpture_mesh_safe(before, fills);
        assert(surfaces.last() == surfaces[surfaces.len() - 1]);
        lemma_surface_mesh_safe(surfaces.last(), fill);
        lemma_join(sculpture_mesh(before, fills), surfaces.last().mesh(fill).unwrap());
    }
}

/// Vertex-count conservation. The mesh of a list of surfaces has exactly as
/// many vertices as the surfaces count one by one: a spanned surface the
/// points of its two lines, a flat surface the vertices of its fill, a roof
/// the corners of its outline and the points of its ridge, a gable six.
pub proof fn lemma_sculpture_vertex_count(surfaces: Seq<Surface>, fills: Seq<Option<Fill>>)
    ensures
        sculpture_mesh(surfaces, fills).vertices.len() == sculpture_vertex_count(surfaces, fills),
    decreases surfaces.len(),
{
    if surfaces.len() > 0 {
        lemma_sculpture_vertex_count(surfaces.drop_last(), fills);
        match surfaces.last().mesh(fill_at(fills, surfaces.len() - 1)) {
            Some(mesh) => {
                lemma_join(sculpture_mesh(surfaces.drop_last(), fills), mesh);
            },
            None => {},
        }
    }
}

/// Gable fixed shape. The mesh of a sculpture of one gable surface has six
/// vertices and the two triangles 0, 1, 2 and 3, 4, 5, however many points
/// the lines of its spine have and whatever fills are given.
pub proof fn lemma_gable_alone(gable: GableSurface, fills: Seq<Option<Fill>>)
    ensures
        sculpture_mesh(seq![Surface::Gable(gable)], fills).vertices.len() == 6,
        sculpture_mesh(seq![Surface::Gable(gable)], fills).indices == seq![
            0u16,
            1u16,
            2u16,
            3u16,
            4u16,
            5u16,
        ],
        sculpture_mesh(seq![Surface::Gable(gable)], fills) == gable.mesh(),
{
    let surfaces = seq![Surface::Gable(gable)];
    assert(surfaces.drop_last() =~= Seq::<Surface>::empty());
    assert(surfaces.last() == Surface::Gable(gable));
    assert(sculpture_mesh(surfaces.drop_last(), fills) == MeshView::empty());
    let joined = MeshView::empty().join(gable.mesh());
    assert(sculpture_mesh(surfaces, fills) == joined);
    assert(joined.vertices =~= gable.mesh().vertices);
    assert(joined.indices =~= gable.mesh().indices);
}

impl From<SpannedSurface> for Surface {
    /// The spanned surface as a surface of any kind.
    fn from(surface: SpannedSurface) -> (r: Surface) {
        Surface::Spanned(surface)
    }
}

impl vstd::std_specs::convert::FromSpecImpl<SpannedSurface> for Surface {
    open spec fn obeys_from_spec() -> bool {
        true
    }

    open spec fn from_spec(surface: SpannedSurface) -> Surface {
        Surface::Spanned(surface)
    }
}

impl From<FlatSurface> for Surface {
    /// The flat surface as a surface of any kind.
    fn from(surface: FlatSurface) -> (r: Surface) {
        Surface::Flat(surface)
    }
}

impl vstd::std_specs::convert::FromSpecImpl<FlatSurface> for Surface {
    open spec fn obeys_from_spec() -> bool {
        true
    }

    open spec fn from_spec(surface: FlatSurface) -> Surface {
        Surface::Flat(surface)
    }
}

impl From<RoofSurface> for Surface {
    /// The roof surface as a surface of any kind.
    fn from(surface: RoofSurface) -> (r: Surface) {
        Surface::Roof(surface)
    }
}

impl vstd::std_specs::convert::FromSpecImpl<RoofSurface> for Surface {
    open spec fn obeys_from_spec() -> bool {
        true
    }

    open spec fn from_spec(surface: RoofSurface) -> Surface {
        Surface::Roof(surface)
    }
}

impl From<GableSurface> for Surface {
    /// The gable surface as a surface of any kind.
    fn from(surface: GableSurface) -> (r: Surface) {
        Surface::Gable(surface)
    }
}

impl vstd::std_specs::convert::FromSpecImpl<GableSurface> for Surface {
    open spec fn obeys_from_spec() -> bool {
        true
    }

    open spec fn from_spec(surface: GableSurface) -> Surface {
        Surface::Gable(surface)
    }
}

} // verus!
