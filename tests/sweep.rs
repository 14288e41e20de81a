use collide2d::point::Point;
use collide2d::sweep::{
    collisions_in_order, comes_no_later, dynamic_rect_vs_rect, order_by_time, ray_vs_rect, Hit, Rect,
};

fn p(x: i32, y: i32) -> Point {
    Point::new(x, y)
}

fn rect(x: i32, y: i32, w: i32, h: i32) -> Rect {
    Rect { pos: p(x, y), size: p(w, h) }
}

fn hit(num: i128, den: i128, cx: i128, cy: i128, cden: i128, normal: Point) -> Hit {
    Hit { time_num: num, time_den: den, contact_x: cx, contact_y: cy, contact_den: cden, normal }
}

#[test]
fn ray_hits_left_edge() {
    let r = ray_vs_rect(p(0, 0), p(10, 0), rect(5, -1, 2, 2));
    assert_eq!(r, Some(hit(5, 10, 50, 0, 10, p(-1, 0))));
}

#[test]
fn ray_hits_right_edge_going_left() {
    let r = ray_vs_rect(p(10, 0), p(-10, 0), rect(2, -1, 2, 2));
    assert_eq!(r, Some(hit(6, 10, 40, 0, 10, p(1, 0))));
}

#[test]
fn ray_too_short() {
    assert_eq!(ray_vs_rect(p(0, 0), p(10, 0), rect(15, -1, 2, 2)), None);
}

#[test]
fn ray_pointing_away() {
    assert_eq!(ray_vs_rect(p(0, 0), p(10, 0), rect(-7, -1, 2, 2)), None);
}

#[test]
fn ray_diagonal_takes_later_axis() {
    let r = ray_vs_rect(p(0, 0), p(10, 10), rect(4, 2, 4, 4));
    assert_eq!(r, Some(hit(4, 10, 40, 40, 10, p(-1, 0))));
}

#[test]
fn ray_into_corner_has_no_normal() {
    let r = ray_vs_rect(p(0, 0), p(10, 10), rect(5, 5, 2, 2));
    assert_eq!(r, Some(hit(5, 10, 50, 50, 10, p(0, 0))));
}

#[test]
fn ray_misses_beside_rect() {
    assert_eq!(ray_vs_rect(p(0, 0), p(10, 10), rect(5, -10, 2, 2)), None);
}

#[test]
fn ray_parallel_along_edge() {
    assert_eq!(ray_vs_rect(p(0, 1), p(10, 0), rect(5, -1, 2, 2)), None);
}

#[test]
fn ray_without_direction() {
    assert_eq!(ray_vs_rect(p(6, 0), p(0, 0), rect(5, -1, 2, 2)), None);
}

#[test]
fn ray_against_rect_with_negative_extent() {
    let r = ray_vs_rect(p(0, 0), p(10, 0), rect(7, 1, -2, -2));
    assert_eq!(r, Some(hit(5, 10, 50, 0, 10, p(-1, 0))));
}

#[test]
fn moving_rect_stops_at_target() {
    let r = dynamic_rect_vs_rect(rect(0, 0, 2, 2), p(10, 0), rect(6, -1, 4, 4));
    assert_eq!(r, Some(hit(8, 20, 200, 40, 40, p(-1, 0))));
}

#[test]
fn resting_rect_does_not_collide() {
    assert_eq!(dynamic_rect_vs_rect(rect(0, 0, 2, 2), p(0, 0), rect(2, 0, 4, 4)), None);
}

#[test]
fn rect_already_inside_does_not_collide() {
    assert_eq!(dynamic_rect_vs_rect(rect(7, 0, 2, 2), p(10, 0), rect(6, -1, 4, 4)), None);
}

#[test]
fn moving_rect_falls_onto_floor() {
    let r = dynamic_rect_vs_rect(rect(0, 0, 4, 4), p(0, 8), rect(-10, 10, 20, 2));
    assert_eq!(r, Some(hit(12, 16, 64, 256, 32, p(0, -1))));
}

#[test]
fn hits_ordered_by_time_then_index() {
    let n = p(0, 0);
    let hits = vec![
        hit(5, 10, 0, 0, 10, n),
        hit(1, 4, 0, 0, 4, n),
        hit(2, 4, 0, 0, 4, n),
        hit(1, 2, 0, 0, 2, n),
        hit(0, 3, 0, 0, 3, n),
    ];
    assert_eq!(order_by_time(&hits), vec![4, 1, 0, 2, 3]);
    assert_eq!(order_by_time(&vec![]), Vec::<usize>::new());
}

#[test]
fn time_comparison() {
    let n = p(0, 0);
    assert!(comes_no_later(hit(1, 3, 0, 0, 3, n), hit(1, 2, 0, 0, 2, n)));
    assert!(!comes_no_later(hit(2, 3, 0, 0, 3, n), hit(1, 2, 0, 0, 2, n)));
    assert!(comes_no_later(hit(2, 4, 0, 0, 4, n), hit(1, 2, 0, 0, 2, n)));
}

#[test]
fn collisions_listed_by_time_then_index() {
    let targets = vec![
        rect(20, -1, 4, 4),
        rect(6, -1, 4, 4),
        rect(4, -1, 1, 4),
        rect(6, -1, 4, 4),
    ];
    let r = collisions_in_order(rect(0, 0, 2, 2), p(10, 0), &targets);
    let b = hit(8, 20, 200, 40, 40, p(-1, 0));
    assert_eq!(r, vec![(2, hit(4, 20, 120, 40, 40, p(-1, 0))), (1, b), (3, b)]);
}

#[test]
fn no_collisions_without_targets_or_motion() {
    assert!(collisions_in_order(rect(0, 0, 2, 2), p(10, 0), &vec![]).is_empty());
    let targets = vec![rect(6, -1, 4, 4)];
    assert!(collisions_in_order(rect(0, 0, 2, 2), p(0, 0), &targets).is_empty());
}
