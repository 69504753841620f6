//! Planar paths. A path is a `descartes::LinePath`: a run of points with the
//! distance travelled up to each. Its operations are those of `descartes`,
//! called here on numbers held by their bit patterns.
//!
//! What `descartes` computes is given a name for each operation. Where a
//! coordinate that it computes is not a number, its pattern is the
//! processor's choice and the name says only that it is not a number. So
//! the operations of this module keep a computed path only if all its
//! points and distances are numbers, and keep a computed point or direction
//! with the one pattern `NAN_BITS` in place of what is not a number.

use crate::number::is_nan_bits;
use crate::number::same_but_nan_bits;
use crate::number::same_value_bits;
use crate::number::Number;
use descartes::LinePath;
use descartes::N;
use descartes::V2;
use vstd::prelude::*;

verus! {

/// A point of the plane.
#[derive(Clone, Copy, Debug, PartialEq, Eq, Structural)]
pub struct Point {
    pub x: Number,
    pub y: Number,
}

/// A direction in the plane.
#[derive(Clone, Copy, Debug, PartialEq, Eq, Structural)]
pub struct Direction {
    pub x: Number,
    pub y: Number,
}

impl Direction {
    /// The direction whose components have the given bit patterns.
    pub fn from_bits(x: u32, y: u32) -> (direction: Direction)
        ensures
            direction.x.bits == x,
            direction.y.bits == y,
    {
        Direction { x: Number { bits: x }, y: Number { bits: y } }
    }
}

impl Point {
    /// The point whose coordinates have the given bit patterns.
    pub fn from_bits(x: u32, y: u32) -> (point: Point)
        ensures
            point.x.bits == x,
            point.y.bits == y,
    {
        Point { x: Number { bits: x }, y: Number { bits: y } }
    }

    /// The point `by` times `direction` further on.
    pub open spec fn pushed_spec(self, direction: Direction, by: Number) -> Point {
        Point { x: self.x.plus(by.times(direction.x)), y: self.y.plus(by.times(direction.y)) }
    }

    /// The point `by` times `direction` further back.
    pub open spec fn pulled_spec(self, direction: Direction, by: Number) -> Point {
        Point { x: self.x.minus(by.times(direction.x)), y: self.y.minus(by.times(direction.y)) }
    }

    /// The point `by` times `direction` further on.
    #[verifier::when_used_as_spec(pushed_spec)]
    pub fn pushed(self, direction: Direction, by: Number) -> (point: Point)
        ensures
            point == self.pushed_spec(direction, by),
    {
        Point { x: self.x.plus(by.times(direction.x)), y: self.y.plus(by.times(direction.y)) }
    }

    /// The point `by` times `direction` further back.
    #[verifier::when_used_as_spec(pulled_spec)]
    pub fn pulled(self, direction: Direction, by: Number) -> (point: Point)
        ensures
            point == self.pulled_spec(direction, by),
    {
        Point { x: self.x.minus(by.times(direction.x)), y: self.y.minus(by.times(direction.y)) }
    }
}

/// Why two paths could not be joined.
#[derive(Clone, Copy, Debug, PartialEq, Eq, Structural)]
pub enum ConcatFailure {
    /// The second path does not start where the first one ends.
    PointsTooFarApart,
    /// The joined points do not make a path.
    CreatedInvalidSegment,
}

/// `descartes::LinePath`, taken as it is; what it holds is read through
/// `path_points` and `path_distances`.
#[verifier::external_type_specification]
#[verifier::external_body]
pub struct ExLinePath(descartes::LinePath);

/// The points of a path, in order.
pub uninterp spec fn path_points(path: LinePath) -> Seq<Point>;

/// The distances travelled along a path up to each of its points.
pub uninterp spec fn path_distances(path: LinePath) -> Seq<Number>;

/// What `LinePath::new` makes of the given points: the points it keeps, if
/// they make a path.
pub uninterp spec fn new_path_result(points: Seq<Point>) -> Option<Seq<Point>>;

/// What `LinePath::shift_orthogonally` makes of a path: its points moved
/// sideways by `shift` (to the right of its direction where `shift` is
/// positive), if they make a path.
pub uninterp spec fn shift_result(points: Seq<Point>, shift: Number) -> Option<Seq<Point>>;

/// What `LinePath::concat` makes of two paths: their points joined end to
/// start.
pub uninterp spec fn concat_result(first: Seq<Point>, second: Seq<Point>) -> Result<
    Seq<Point>,
    ConcatFailure,
>;

/// What `LinePath::subsection` makes of a path: the points of the part
/// between two distances, if they make a path.
pub uninterp spec fn subsection_result(
    points: Seq<Point>,
    distances: Seq<Number>,
    start: Number,
    end: Number,
) -> Option<Seq<Point>>;

/// What `LinePath::along` makes of a path: the point at a distance along it.
pub uninterp spec fn along_result(points: Seq<Point>, distances: Seq<Number>, distance: Number) -> Point;

/// What `LinePath::start_direction` makes of a path: the direction in which
/// it sets out.
pub uninterp spec fn start_direction_result(points: Seq<Point>) -> Direction;

/// What `LinePath::end_direction` makes of a path: the direction in which it
/// arrives.
pub uninterp spec fn end_direction_result(points: Seq<Point>) -> Direction;

/// The distances that `LinePath::new` works out for the points it keeps:
/// the length of the way from the first point up to each.
pub uninterp spec fn distances_along(points: Seq<Point>) -> Seq<Number>;

/// Whether a path ends where it starts.
pub uninterp spec fn ends_meet(points: Seq<Point>) -> bool;

/// Both coordinates are numbers.
pub open spec fn point_is_number(point: Point) -> bool {
    !is_nan_bits(point.x.bits) && !is_nan_bits(point.y.bits)
}

/// Every coordinate of every point is a number.
pub open spec fn points_are_numbers(points: Seq<Point>) -> bool {
    forall|i: int| 0 <= i < points.len() ==> point_is_number(#[trigger] points[i])
}

/// Every value is a number.
pub open spec fn are_numbers(values: Seq<Number>) -> bool {
    forall|i: int| 0 <= i < values.len() ==> !is_nan_bits((#[trigger] values[i]).bits)
}

/// The two points are the same but for the pattern of a coordinate that is
/// not a number.
pub open spec fn same_point_but_nan(a: Point, b: Point) -> bool {
    same_but_nan_bits(a.x.bits, b.x.bits) && same_but_nan_bits(a.y.bits, b.y.bits)
}

/// The two directions are the same but for the pattern of a component that
/// is not a number.
pub open spec fn same_direction_but_nan(a: Direction, b: Direction) -> bool {
    same_but_nan_bits(a.x.bits, b.x.bits) && same_but_nan_bits(a.y.bits, b.y.bits)
}

/// The two runs of points are the same but for the patterns of coordinates
/// that are not numbers.
pub open spec fn same_points_but_nan(a: Seq<Point>, b: Seq<Point>) -> bool {
    a.len() == b.len() && forall|i: int| 0 <= i < a.len() ==> same_point_but_nan(#[trigger] a[i], b[i])
}

/// The two runs of values are the same but for the patterns of values that
/// are not numbers.
pub open spec fn same_values_but_nan(a: Seq<Number>, b: Seq<Number>) -> bool {
    a.len() == b.len() && forall|i: int|
        0 <= i < a.len() ==> same_but_nan_bits((#[trigger] a[i]).bits, b[i].bits)
}

/// The two points lie at the same place: each coordinate of the one has the
/// value of that of the other, or neither is a number.
pub open spec fn same_place(a: Point, b: Point) -> bool {
    &&& same_value_bits(a.x.bits, b.x.bits) || (is_nan_bits(a.x.bits) && is_nan_bits(b.x.bits))
    &&& same_value_bits(a.y.bits, b.y.bits) || (is_nan_bits(a.y.bits) && is_nan_bits(b.y.bits))
}

/// A path as `LinePath::new` makes it: two points or more, and a distance
/// for each.
pub open spec fn valid_path(path: LinePath) -> bool {
    path_points(path).len() >= 2 && path_distances(path).len() == path_points(path).len()
}

/// Points of which a path can be kept: they are numbers, and so are the
/// distances along them.
pub open spec fn sound_points(points: Seq<Point>) -> bool {
    points_are_numbers(points) && are_numbers(distances_along(points))
}

/// A path as this module keeps it: valid, its points and distances numbers,
/// its distances those that `LinePath::new` works out from its points.
pub open spec fn made_path(path: LinePath) -> bool {
    &&& valid_path(path)
    &&& points_are_numbers(path_points(path))
    &&& are_numbers(path_distances(path))
    &&& path_distances(path) == distances_along(path_points(path))
}

/// The path holds the computed points: it is valid, and its points are the
/// computed ones but for the patterns of what is not a number.
pub open spec fn holds_points(path: LinePath, result: Seq<Point>) -> bool {
    valid_path(path) && same_points_but_nan(path_points(path), result)
}

/// The path holds what was computed: the computed points and, where they
/// are all numbers, the distances along them, but for the patterns of what
/// is not a number.
pub open spec fn holds_result(path: LinePath, result: Seq<Point>) -> bool {
    &&& holds_points(path, result)
    &&& points_are_numbers(path_points(path)) ==> same_values_but_nan(
        path_distances(path),
        distances_along(path_points(path)),
    )
}

/// The computed points, where a path of them is kept.
pub open spec fn kept(result: Option<Seq<Point>>) -> Option<Seq<Point>> {
    match result {
        Some(points) => if sound_points(points) {
            Some(points)
        } else {
            None
        },
        None => None,
    }
}

/// The point with `NAN_BITS` for each coordinate that is not a number.
pub open spec fn settled_point(point: Point) -> Point {
    Point { x: point.x.settled(), y: point.y.settled() }
}

/// The direction with `NAN_BITS` for each component that is not a number.
pub open spec fn settled_direction(direction: Direction) -> Direction {
    Direction { x: direction.x.settled(), y: direction.y.settled() }
}

/// The points of the path that `new_path` makes of the given points, if it
/// makes one.
pub open spec fn new_path_points(points: Seq<Point>) -> Option<Seq<Point>> {
    kept(new_path_result(points))
}

/// The points of the path that `shift_orthogonally` makes, if it makes one.
pub open spec fn shifted_points(points: Seq<Point>, shift: Number) -> Option<Seq<Point>> {
    kept(shift_result(points, shift))
}

/// The points of the path that `concat` makes of two paths, or why it makes
/// none. Points of which no path is kept count as making no path.
pub open spec fn concatenated_points(first: Seq<Point>, second: Seq<Point>) -> Result<
    Seq<Point>,
    ConcatFailure,
> {
    match concat_result(first, second) {
        Ok(points) => if sound_points(points) {
            Ok(points)
        } else {
            Err(ConcatFailure::CreatedInvalidSegment)
        },
        Err(failure) => Err(failure),
    }
}

/// The points of the path that `subsection` makes, if it makes one.
pub open spec fn subsection_points(
    points: Seq<Point>,
    distances: Seq<Number>,
    start: Number,
    end: Number,
) -> Option<Seq<Point>> {
    kept(subsection_result(points, distances, start, end))
}

/// The points with a new first and a new last one: the new start, the
/// points but for the first and the last, and the new end.
pub open spec fn respanned(points: Seq<Point>, new_start: Point, new_end: Point) -> Seq<Point> {
    seq![new_start] + points.subrange(1, points.len() - 1) + seq![new_end]
}

/// The points of the path that `with_new_start_and_end` makes, if it makes
/// one: those of the path through the points with the new start and end.
pub open spec fn respanned_points(points: Seq<Point>, new_start: Point, new_end: Point) -> Option<
    Seq<Point>,
> {
    new_path_points(respanned(points, new_start, new_end))
}

/// The point at a distance along a path.
pub open spec fn point_along(points: Seq<Point>, distances: Seq<Number>, distance: Number) -> Point {
    settled_point(along_result(points, distances, distance))
}

/// The direction in which a path sets out.
pub open spec fn start_direction_of(points: Seq<Point>) -> Direction {
    settled_direction(start_direction_result(points))
}

/// The direction in which a path arrives.
pub open spec fn end_direction_of(points: Seq<Point>) -> Direction {
    settled_direction(end_direction_result(points))
}

/// Reads the field `points` of a path.
#[verifier::external_body]
pub(crate) fn points_of(path: &LinePath) -> (points: Vec<Point>)
    ensures
        points@ == path_points(*path),
{
    path.points.iter().map(
        |p| Point::from_bits(p.x.to_bits(), p.y.to_bits()),
    ).collect()
}

/// Reads the field `distances` of a path.
#[verifier::external_body]
pub(crate) fn distances_of(path: &LinePath) -> (distances: Vec<Number>)
    ensures
        distances@ == path_distances(*path),
{
    path.distances.iter().map(|d| Number::from_bits(d.to_bits())).collect()
}

/// `LinePath::clone`, which copies both fields.
#[verifier::external_body]
pub(crate) fn clone_path(path: &LinePath) -> (copy: LinePath)
    ensures
        path_points(copy) == path_points(*path),
        path_distances(copy) == path_distances(*path),
{
    path.clone()
}

/// The length of the path: the last of its distances.
pub fn path_length(path: &LinePath) -> (length: Number)
    requires
        path_distances(*path).len() > 0,
    ensures
        length == path_distances(*path).last(),
{
    let distances = distances_of(path);
    distances[distances.len() - 1]
}

/// `ClosedLinePath::try_clone_from`, asked only whether it accepts the path:
/// it does where the end lies within the path thickness of the start. It
/// reads both, so the path must have points.
#[verifier::external_body]
pub(crate) fn is_closed(path: &LinePath) -> (closed: bool)
    requires
        valid_path(*path),
    ensures
        closed == ends_meet(path_points(*path)),
{
    descartes::ClosedLinePath::try_clone_from(path).is_some()
}

/// `LinePath::new`. It keeps the first point, drops each further point that
/// lies within the path thickness of the one kept before it, and makes the
/// last point kept the last point given unless the two are equal. It returns a path only if two points or more are left,
/// with one distance pushed for each point kept: the distance of the point
/// before plus the length of the step from it.
#[verifier::external_body]
fn computed_new_path(points: &Vec<Point>) -> (made: Option<LinePath>)
    ensures
        match made {
            Some(path) => {
                &&& new_path_result(points@).is_some()
                &&& holds_points(path, new_path_result(points@).unwrap())
                &&& points_are_numbers(path_points(path)) ==> same_values_but_nan(
                    path_distances(path),
                    distances_along(path_points(path)),
                )
                &&& path_points(path).len() <= points@.len()
                &&& same_point_but_nan(path_points(path)[0], points@[0])
                &&& same_place(path_points(path).last(), points@.last())
            },
            None => new_path_result(points@).is_none(),
        },
{
    LinePath::new(
        points.iter().map(
            |p| V2::new(N::from_bits(p.x.bits), N::from_bits(p.y.bits)).into(),
        ).collect(),
    )
}

/// `LinePath::shift_orthogonally`. It reads the first and the last segment,
/// so the path must have two points. It moves each point once and hands the
/// moved points to `LinePath::new`, which keeps some or all of them.
#[verifier::external_body]
fn computed_shift(path: &LinePath, shift: Number) -> (moved: Option<LinePath>)
    requires
        valid_path(*path),
    ensures
        match moved {
            Some(new_path) => {
                &&& shift_result(path_points(*path), shift).is_some()
                &&& holds_points(new_path, shift_result(path_points(*path), shift).unwrap())
                &&& points_are_numbers(path_points(new_path)) ==> same_values_but_nan(
                    path_distances(new_path),
                    distances_along(path_points(new_path)),
                )
                &&& path_points(new_path).len() <= path_points(*path).len()
            },
            None => shift_result(path_points(*path), shift).is_none(),
        },
{
    path.shift_orthogonally(N::from_bits(shift.bits))
}

/// `LinePath::concat`. It reads the end of the first path and the start of
/// the second; the points of the first and then those of the second go
/// through `LinePath::new`, which keeps the first of them and ends on the
/// last.
#[verifier::external_body]
fn computed_concat(first: &LinePath, second: &LinePath) -> (joined: Result<LinePath, ConcatFailure>)
    requires
        valid_path(*first),
        valid_path(*second),
    ensures
        match joined {
            Ok(path) => {
                &&& concat_result(path_points(*first), path_points(*second)).is_ok()
                &&& holds_points(
                    path,
                    concat_result(path_points(*first), path_points(*second)).unwrap(),
                )
                &&& points_are_numbers(path_points(path)) ==> same_values_but_nan(
                    path_distances(path),
                    distances_along(path_points(path)),
                )
                &&& same_point_but_nan(path_points(path)[0], path_points(*first)[0])
                &&& same_place(path_points(path).last(), path_points(*second).last())
            },
            Err(failure) => concat_result(path_points(*first), path_points(*second)) == Err::<
                Seq<Point>,
                ConcatFailure,
            >(failure),
        },
{
    match first.concat(second) {
        Ok(path) => Ok(path),
        Err(descartes::ConcatError::PointsTooFarApart) => Err(ConcatFailure::PointsTooFarApart),
        Err(descartes::ConcatError::CreatedInvalidSegment) => Err(
            ConcatFailure::CreatedInvalidSegment,
        ),
    }
}

/// `LinePath::subsection`. It reads the start and the end of the path; the
/// points of the part go through `LinePath::new`.
#[verifier::external_body]
fn computed_subsection(path: &LinePath, start: Number, end: Number) -> (part: Option<LinePath>)
    requires
        valid_path(*path),
    ensures
        match part {
            Some(new_path) => {
                &&& subsection_result(path_points(*path), path_distances(*path), start, end).is_some()
                &&& holds_points(
                    new_path,
                    subsection_result(path_points(*path), path_distances(*path), start, end).unwrap(),
                )
                &&& points_are_numbers(path_points(new_path)) ==> same_values_but_nan(
                    path_distances(new_path),
                    distances_along(path_points(new_path)),
                )
            },
            None => subsection_result(
                path_points(*path),
                path_distances(*path),
                start,
                end,
            ).is_none(),
        },
{
    path.subsection(N::from_bits(start.bits), N::from_bits(end.bits))
}

/// `LinePath::along`. It falls back on the start or the end of the path, so
/// the path must have points.
#[verifier::external_body]
fn computed_along(path: &LinePath, distance: Number) -> (point: Point)
    requires
        valid_path(*path),
    ensures
        same_point_but_nan(
            point,
            along_result(path_points(*path), path_distances(*path), distance),
        ),
{
    let p = path.along(N::from_bits(distance.bits));
    Point::from_bits(p.x.to_bits(), p.y.to_bits())
}

/// `LinePath::start_direction`: the direction of the first segment, which
/// takes two points.
#[verifier::external_body]
fn computed_start_direction(path: &LinePath) -> (direction: Direction)
    requires
        valid_path(*path),
    ensures
        same_direction_but_nan(direction, start_direction_result(path_points(*path))),
{
    let v = path.start_direction();
    Direction::from_bits(v.x.to_bits(), v.y.to_bits())
}

/// `LinePath::end_direction`: the direction of the last segment, which takes
/// two points.
#[verifier::external_body]
fn computed_end_direction(path: &LinePath) -> (direction: Direction)
    requires
        valid_path(*path),
    ensures
        same_direction_but_nan(direction, end_direction_result(path_points(*path))),
{
    let v = path.end_direction();
    Direction::from_bits(v.x.to_bits(), v.y.to_bits())
}

/// `LinePath::with_new_start_and_end`. It slices the points between the
/// first and the last, which takes two points, and returns what
/// `LinePath::new` makes of the new start, those points and the new end: it
/// keeps the first of them and ends on the last.
#[verifier::external_body]
fn computed_respan(path: &LinePath, new_start: Point, new_end: Point) -> (made: Option<LinePath>)
    requires
        valid_path(*path),
    ensures
        match made {
            Some(new_path) => {
                &&& new_path_result(respanned(path_points(*path), new_start, new_end)).is_some()
                &&& holds_points(
                    new_path,
                    new_path_result(respanned(path_points(*path), new_start, new_end)).unwrap(),
                )
                &&& points_are_numbers(path_points(new_path)) ==> same_values_but_nan(
                    path_distances(new_path),
                    distances_along(path_points(new_path)),
                )
                &&& same_point_but_nan(path_points(new_path)[0], new_start)
                &&& same_place(path_points(new_path).last(), new_end)
            },
            None => new_path_result(respanned(path_points(*path), new_start, new_end)).is_none(),
        },
{
    path.with_new_start_and_end(
        V2::new(N::from_bits(new_start.x.bits), N::from_bits(new_start.y.bits)).into(),
        V2::new(N::from_bits(new_end.x.bits), N::from_bits(new_end.y.bits)).into(),
    )
}

/// Whether every coordinate of every point is a number.
pub fn check_points_are_numbers(points: &Vec<Point>) -> (r: bool)
    ensures
        r == points_are_numbers(points@),
{
    let mut i: usize = 0;
    while i < points.len()
        invariant
            i <= points.len(),
            forall|j: int| 0 <= j < i ==> point_is_number(#[trigger] points[j]),
        decreases points.len() - i,
    {
        if points[i].x.is_nan() || points[i].y.is_nan() {
            assert(!point_is_number(points[i as int]));
            return false;
        }
        i = i + 1;
    }
    true
}

/// Whether every value is a number.
pub fn check_are_numbers(values: &Vec<Number>) -> (r: bool)
    ensures
        r == are_numbers(values@),
{
    let mut i: usize = 0;
    while i < values.len()
        invariant
            i <= values.len(),
            forall|j: int| 0 <= j < i ==> !is_nan_bits((#[trigger] values[j]).bits),
        decreases values.len() - i,
    {
        if values[i].is_nan() {
            assert(is_nan_bits(values[i as int].bits));
            return false;
        }
        i = i + 1;
    }
    true
}

/// A path that holds numbers only holds exactly what was computed, and is a
/// path as this module keeps it; one that does not holds a result of which
/// no path is kept.
pub proof fn lemma_holds_result(path: LinePath, result: Seq<Point>)
    requires
        holds_result(path, result),
    ensures
        sound_points(result) <==> points_are_numbers(path_points(path)) && are_numbers(
            path_distances(path),
        ),
        sound_points(result) ==> path_points(path) == result && made_path(path),
{
    let points = path_points(path);
    let distances = path_distances(path);
    if points_are_numbers(points) {
        assert forall|i: int| 0 <= i < points.len() implies #[trigger] points[i] == result[i] by {
            assert(same_point_but_nan(points[i], result[i]));
            assert(point_is_number(points[i]));
        }
        assert(points =~= result);
        let along = distances_along(points);
        if are_numbers(distances) {
            assert forall|i: int| 0 <= i < distances.len() implies #[trigger] distances[i]
                == along[i] by {
                assert(same_but_nan_bits(distances[i].bits, along[i].bits));
            }
            assert(distances =~= along);
        } else {
            let i = choose|i: int| 0 <= i < distances.len() && is_nan_bits((#[trigger] distances[i]).bits);
            assert(same_but_nan_bits(distances[i].bits, along[i].bits));
            assert(is_nan_bits(along[i].bits));
        }
    } else {
        let i = choose|i: int| 0 <= i < points.len() && !point_is_number(#[trigger] points[i]);
        assert(same_point_but_nan(points[i], result[i]));
        assert(!point_is_number(result[i]));
    }
}

/// The path, if it holds numbers only.
fn keep(path: LinePath, Ghost(result): Ghost<Seq<Point>>) -> (r: Option<LinePath>)
    requires
        holds_result(path, result),
    ensures
        match r {
            Some(same) => same == path && sound_points(result) && path_points(path) == result
                && made_path(path),
            None => !sound_points(result),
        },
{
    proof {
        lemma_holds_result(path, result);
    }
    let points = points_of(&path);
    let distances = distances_of(&path);
    if check_points_are_numbers(&points) && check_are_numbers(&distances) {
        Some(path)
    } else {
        None
    }
}

/// The path through the given points: through the first of them, through
/// each further one that does not lie within the path thickness of the one
/// before, and to the last of them. There is none where fewer than two
/// points are left or a point or a distance is not a number.
pub fn new_path(points: &Vec<Point>) -> (made: Option<LinePath>)
    ensures
        match made {
            Some(path) => {
                &&& new_path_points(points@) == Some(path_points(path))
                &&& made_path(path)
                &&& path_points(path).len() <= points@.len()
                &&& path_points(path)[0] == points@[0]
                &&& same_place(path_points(path).last(), points@.last())
            },
            None => new_path_points(points@).is_none(),
        },
{
    match computed_new_path(points) {
        Some(path) => {
            let ghost first = path_points(path)[0];
            match keep(path, Ghost(new_path_result(points@).unwrap())) {
                Some(kept_path) => {
                    proof {
                        assert(point_is_number(path_points(kept_path)[0]));
                        assert(same_point_but_nan(first, points@[0]));
                    }
                    Some(kept_path)
                },
                None => None,
            }
        },
        None => None,
    }
}

/// The path shifted sideways by `shift`, to the right of its direction where
/// `shift` is positive. There is none where the shifted points make no path
/// or hold what is not a number.
pub fn shift_orthogonally(path: &LinePath, shift: Number) -> (moved: Option<LinePath>)
    requires
        valid_path(*path),
    ensures
        match moved {
            Some(new_path) => shifted_points(path_points(*path), shift) == Some(
                path_points(new_path),
            ) && made_path(new_path) && path_points(new_path).len() <= path_points(*path).len(),
            None => shifted_points(path_points(*path), shift).is_none(),
        },
{
    match computed_shift(path, shift) {
        Some(new_path) => keep(new_path, Ghost(shift_result(path_points(*path), shift).unwrap())),
        None => None,
    }
}

/// The two paths joined, the second starting where the first one ends: the
/// joined path starts where the first one starts and ends at the place
/// where the second one ends.
pub fn concat(first: &LinePath, second: &LinePath) -> (joined: Result<LinePath, ConcatFailure>)
    requires
        valid_path(*first),
        valid_path(*second),
    ensures
        match joined {
            Ok(path) => {
                &&& concatenated_points(path_points(*first), path_points(*second)) == Ok::<
                    Seq<Point>,
                    ConcatFailure,
                >(path_points(path))
                &&& made_path(path)
                &&& path_points(path)[0] == path_points(*first)[0]
                &&& same_place(path_points(path).last(), path_points(*second).last())
            },
            Err(failure) => concatenated_points(path_points(*first), path_points(*second)) == Err::<
                Seq<Point>,
                ConcatFailure,
            >(failure),
        },
{
    match computed_concat(first, second) {
        Ok(path) => {
            let ghost result = concat_result(path_points(*first), path_points(*second)).unwrap();
            let ghost start = path_points(path)[0];
            match keep(path, Ghost(result)) {
                Some(kept_path) => {
                    proof {
                        assert(point_is_number(path_points(kept_path)[0]));
                        assert(same_point_but_nan(start, path_points(*first)[0]));
                    }
                    Ok(kept_path)
                },
                None => Err(ConcatFailure::CreatedInvalidSegment),
            }
        },
        Err(failure) => Err(failure),
    }
}

/// The part of the path between the distances `start` and `end`. There is
/// none where its points make no path or hold what is not a number.
pub fn subsection(path: &LinePath, start: Number, end: Number) -> (part: Option<LinePath>)
    requires
        valid_path(*path),
    ensures
        match part {
            Some(new_path) => subsection_points(
                path_points(*path),
                path_distances(*path),
                start,
                end,
            ) == Some(path_points(new_path)) && made_path(new_path),
            None => subsection_points(
                path_points(*path),
                path_distances(*path),
                start,
                end,
            ).is_none(),
        },
{
    match computed_subsection(path, start, end) {
        Some(new_path) => keep(
            new_path,
            Ghost(subsection_result(path_points(*path), path_distances(*path), start, end).unwrap()),
        ),
        None => None,
    }
}

/// The point at a distance along the path.
pub fn along(path: &LinePath, distance: Number) -> (point: Point)
    requires
        valid_path(*path),
    ensures
        point == point_along(path_points(*path), path_distances(*path), distance),
{
    let computed = computed_along(path, distance);
    Point { x: computed.x.settled(), y: computed.y.settled() }
}

/// The direction in which the path sets out.
pub fn start_direction(path: &LinePath) -> (direction: Direction)
    requires
        valid_path(*path),
    ensures
        direction == start_direction_of(path_points(*path)),
{
    let computed = computed_start_direction(path);
    Direction { x: computed.x.settled(), y: computed.y.settled() }
}

/// The direction in which the path arrives.
pub fn end_direction(path: &LinePath) -> (direction: Direction)
    requires
        valid_path(*path),
    ensures
        direction == end_direction_of(path_points(*path)),
{
    let computed = computed_end_direction(path);
    Direction { x: computed.x.settled(), y: computed.y.settled() }
}

/// The path with a new first and a new last point: it starts at `new_start`
/// and ends at the place of `new_end`. There is none where the points make
/// no path or hold what is not a number.
pub fn with_new_start_and_end(path: &LinePath, new_start: Point, new_end: Point) -> (made: Option<
    LinePath,
>)
    requires
        valid_path(*path),
    ensures
        match made {
            Some(new_path) => {
                &&& respanned_points(path_points(*path), new_start, new_end) == Some(
                    path_points(new_path),
                )
                &&& made_path(new_path)
                &&& path_points(new_path)[0] == new_start
                &&& same_place(path_points(new_path).last(), new_end)
            },
            None => respanned_points(path_points(*path), new_start, new_end).is_none(),
        },
{
    match computed_respan(path, new_start, new_end) {
        Some(new_path) => {
            let ghost first = path_points(new_path)[0];
            match keep(
                new_path,
                Ghost(
                    new_path_result(respanned(path_points(*path), new_start, new_end)).unwrap(),
                ),
            ) {
                Some(kept_path) => {
                    proof {
                        assert(point_is_number(path_points(kept_path)[0]));
                        assert(same_point_but_nan(first, new_start));
                    }
                    Some(kept_path)
                },
                None => None,
            }
        },
        None => None,
    }
}

} // verus!
