use collide2d::gjk::{gjk_probe, minkowski_support, GjkProbe};
use collide2d::point::Point;
use collide2d::shape::{make_minkowsky_sum, move_verticee_list, outline_segments, ConvexShape};
use collide2d::support::{get_average, gjk_get_support_function};

fn p(x: i32, y: i32) -> Point {
    Point::new(x, y)
}

fn square(half: i32) -> Vec<Point> {
    vec![p(-half, -half), p(half, -half), p(half, half), p(-half, half)]
}

#[test]
fn translate_moves_every_vertex() {
    let moved = move_verticee_list(&square(20), p(100, 100));
    assert_eq!(moved, vec![p(80, 80), p(120, 80), p(120, 120), p(80, 120)]);
}

#[test]
fn translate_empty_list() {
    assert_eq!(move_verticee_list(&vec![], p(3, 4)), vec![]);
}

#[test]
fn minkowski_difference_order() {
    let a = ConvexShape { vertices: vec![p(1, 2), p(3, 4)] };
    let b = ConvexShape { vertices: vec![p(10, 0), p(0, 10), p(-1, -1)] };
    let r = make_minkowsky_sum(&a, &b);
    assert_eq!(
        r,
        vec![p(-9, 2), p(1, -8), p(2, 3), p(-7, 4), p(3, -6), p(4, 5)]
    );
}

#[test]
fn minkowski_difference_with_empty_shape() {
    let a = ConvexShape { vertices: vec![p(1, 2)] };
    let b = ConvexShape { vertices: vec![] };
    assert!(make_minkowsky_sum(&a, &b).is_empty());
}

#[test]
fn support_picks_farthest_vertex() {
    let s = square(20);
    assert_eq!(gjk_get_support_function(&s, p(1, 1)), p(20, 20));
    assert_eq!(gjk_get_support_function(&s, p(-1, 1)), p(-20, 20));
    assert_eq!(gjk_get_support_function(&s, p(-3, -2)), p(-20, -20));
}

#[test]
fn support_keeps_first_among_equals() {
    let s = square(20);
    assert_eq!(gjk_get_support_function(&s, p(1, 0)), p(20, -20));
    assert_eq!(gjk_get_support_function(&s, p(0, 0)), p(-20, -20));
}

#[test]
fn support_of_single_vertex() {
    assert_eq!(gjk_get_support_function(&vec![p(7, -7)], p(-5, 9)), p(7, -7));
}

#[test]
fn average_of_square_is_its_center() {
    let moved = move_verticee_list(&square(20), p(100, -50));
    assert_eq!(get_average(&moved), p(100, -50));
}

#[test]
fn average_rounds_down() {
    assert_eq!(get_average(&vec![p(-1, 1), p(0, 0)]), p(-1, 0));
    assert_eq!(get_average(&vec![p(1, 2), p(1, 2), p(2, 2)]), p(1, 2));
    assert_eq!(get_average(&vec![p(-7, 7), p(0, 0), p(0, 0)]), p(-3, 2));
}

#[test]
fn average_of_extreme_coordinates() {
    let s = vec![p(i32::MAX, i32::MIN), p(i32::MAX, i32::MIN), p(i32::MAX, i32::MIN)];
    assert_eq!(get_average(&s), p(i32::MAX, i32::MIN));
}

#[test]
fn outline_closes_the_polygon() {
    let s = vec![p(0, 0), p(4, 0), p(0, 3)];
    assert_eq!(
        outline_segments(&s),
        vec![(p(0, 0), p(4, 0)), (p(4, 0), p(0, 3)), (p(0, 3), p(0, 0))]
    );
}

#[test]
fn outline_of_single_point_and_empty() {
    assert_eq!(outline_segments(&vec![p(2, 2)]), vec![(p(2, 2), p(2, 2))]);
    assert!(outline_segments(&vec![]).is_empty());
}

#[test]
fn support_of_difference() {
    let a = square(20);
    let b = move_verticee_list(&square(20), p(100, 100));
    assert_eq!(minkowski_support(&a, &b, p(-100, -100)), p(-140, -140));
    assert_eq!(minkowski_support(&a, &b, p(140, 140)), p(-60, -60));
}

#[test]
fn probe_of_two_squares() {
    let shape = ConvexShape { vertices: square(20) };
    let other = ConvexShape { vertices: move_verticee_list(&square(20), p(100, 100)) };
    let r = gjk_probe(&shape, &other);
    assert_eq!(
        r,
        GjkProbe {
            centroid_a: p(0, 0),
            centroid_b: p(100, 100),
            first: p(-140, -140),
            second: p(-60, -60),
        }
    );
}

#[test]
fn probe_of_overlapping_squares() {
    let shape = ConvexShape { vertices: move_verticee_list(&square(20), p(10, 0)) };
    let other = ConvexShape { vertices: square(20) };
    let r = gjk_probe(&shape, &other);
    assert_eq!(r.centroid_a, p(10, 0));
    assert_eq!(r.centroid_b, p(0, 0));
    assert_eq!(r.first, p(50, 0));
    assert_eq!(r.second, p(-30, 0));
}
