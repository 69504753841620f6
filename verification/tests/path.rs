use descartes::LinePath;
use descartes::V2;
use michelangelo::number::Number;
use michelangelo::number::NAN_BITS;
use michelangelo::path::along;
use michelangelo::path::end_direction;
use michelangelo::path::new_path;
use michelangelo::path::shift_orthogonally;
use michelangelo::path::start_direction;
use michelangelo::path::subsection;
use michelangelo::path::with_new_start_and_end;
use michelangelo::path::ConcatFailure;
use michelangelo::path::Point;

fn n(value: f32) -> Number {
    Number::from_bits(value.to_bits())
}

fn pt(x: f32, y: f32) -> Point {
    Point::from_bits(x.to_bits(), y.to_bits())
}

fn made(points: &[(f32, f32)]) -> LinePath {
    new_path(&points.iter().map(|(x, y)| pt(*x, *y)).collect()).unwrap()
}

fn coordinates(path: &LinePath) -> Vec<(f32, f32)> {
    path.points.iter().map(|p| (p.x, p.y)).collect()
}

#[test]
fn new_path_keeps_the_first_and_ends_on_the_last_point() {
    let path = made(&[(0.0, 0.0), (0.0004, 0.0), (5.0, 0.0), (5.0004, 0.0)]);
    assert_eq!(coordinates(&path), vec![(0.0, 0.0), (5.0004, 0.0)]);
    assert_eq!(path.distances, vec![0.0, 5.0004]);
}

#[test]
fn new_path_of_too_few_points_is_none() {
    assert!(new_path(&vec![pt(1.0, 1.0)]).is_none());
    assert!(new_path(&Vec::new()).is_none());
    assert!(new_path(&vec![pt(1.0, 1.0), pt(1.0, 1.0005)]).is_none());
}

#[test]
fn no_path_is_kept_of_what_is_not_a_number() {
    assert!(new_path(&vec![pt(f32::NAN, 0.0), pt(1.0, 0.0), pt(2.0, 0.0)]).is_none());
    assert!(new_path(&vec![pt(0.0, 0.0), pt(1.0, 0.0), pt(2.0, f32::NAN)]).is_none());
    assert!(new_path(&vec![pt(f32::INFINITY, 0.0), pt(1.0, 0.0), pt(f32::INFINITY, 0.0)]).is_none());
    let path = made(&[(0.0, 0.0), (10.0, 0.0)]);
    assert!(shift_orthogonally(&path, n(f32::NAN)).is_none());
    assert!(with_new_start_and_end(&path, pt(f32::NAN, 0.0), pt(20.0, 0.0)).is_none());
}

#[test]
fn shifted_to_either_side() {
    let path = made(&[(0.0, 0.0), (10.0, 0.0)]);
    assert_eq!(coordinates(&shift_orthogonally(&path, n(2.0)).unwrap()), vec![(0.0, -2.0), (10.0, -2.0)]);
    assert_eq!(coordinates(&shift_orthogonally(&path, n(-2.0)).unwrap()), vec![(0.0, 2.0), (10.0, 2.0)]);
}

#[test]
fn joined_where_the_ends_meet() {
    let first = made(&[(0.0, 0.0), (10.0, 0.0)]);
    let second = made(&[(10.0, 0.0), (10.0, 5.0)]);
    let joined = michelangelo::path::concat(&first, &second).unwrap();
    assert_eq!(coordinates(&joined), vec![(0.0, 0.0), (10.0, 0.0), (10.0, 5.0)]);
    let apart = made(&[(11.0, 0.0), (11.0, 5.0)]);
    assert_eq!(
        michelangelo::path::concat(&first, &apart).err(),
        Some(ConcatFailure::PointsTooFarApart)
    );
}

#[test]
fn part_between_two_distances() {
    let path = made(&[(0.0, 0.0), (10.0, 0.0), (10.0, 10.0)]);
    let part = subsection(&path, n(5.0), n(15.0)).unwrap();
    assert_eq!(coordinates(&part), vec![(5.0, 0.0), (10.0, 0.0), (10.0, 5.0)]);
    assert!(subsection(&path, n(5.0), n(5.0)).is_none());
}

#[test]
fn points_and_directions_along_a_path() {
    let path = made(&[(0.0, 0.0), (10.0, 0.0), (10.0, 10.0)]);
    assert_eq!(along(&path, n(12.0)), pt(10.0, 2.0));
    assert_eq!(along(&path, n(-1.0)), pt(-1.0, 0.0));
    assert_eq!(along(&path, n(100.0)), pt(10.0, 10.0));
    let start = start_direction(&path);
    assert_eq!((f32::from_bits(start.x.bits), f32::from_bits(start.y.bits)), (1.0, 0.0));
    let end = end_direction(&path);
    assert_eq!((f32::from_bits(end.x.bits), f32::from_bits(end.y.bits)), (0.0, 1.0));
}

#[test]
fn direction_that_is_no_number_has_one_pattern() {
    let twice = V2::new(1.0, 1.0);
    let still = LinePath { points: vec![twice.into(), twice.into()], distances: vec![0.0, 0.0] };
    let start = start_direction(&still);
    assert_eq!((start.x.bits, start.y.bits), (NAN_BITS, NAN_BITS));
    let end = end_direction(&still);
    assert_eq!((end.x.bits, end.y.bits), (NAN_BITS, NAN_BITS));
}

#[test]
fn new_start_and_end() {
    let path = made(&[(0.0, 0.0), (5.0, 1.0), (10.0, 0.0)]);
    let longer = with_new_start_and_end(&path, pt(-2.0, 0.0), pt(12.0, 0.0)).unwrap();
    assert_eq!(coordinates(&longer), vec![(-2.0, 0.0), (5.0, 1.0), (12.0, 0.0)]);
}
