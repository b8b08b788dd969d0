use breakout_core::geometry::{collide, Collision, Vec2};

fn v(x: i64, y: i64) -> Vec2 {
    Vec2 { x, y }
}

#[test]
fn no_overlap_is_no_collision() {
    assert_eq!(collide(v(0, 0), v(2, 2), v(10, 10), v(2, 2)), None);
}

#[test]
fn touching_boxes_do_not_collide() {
    // a spans -1..=1, b spans 1..=5: edges meet, no overlap area
    assert_eq!(collide(v(0, 0), v(2, 2), v(3, 0), v(4, 4)), None);
}

#[test]
fn entering_from_the_left_is_left() {
    // a overlaps b's left edge only
    assert_eq!(collide(v(0, 0), v(2, 2), v(2, 0), v(4, 4)), Some(Collision::Left));
}

#[test]
fn entering_from_the_right_is_right() {
    assert_eq!(collide(v(0, 0), v(2, 2), v(-2, 0), v(4, 4)), Some(Collision::Right));
}

#[test]
fn entering_from_above_is_top() {
    // b sits below a
    assert_eq!(collide(v(0, 0), v(2, 2), v(0, -2), v(4, 4)), Some(Collision::Top));
}

#[test]
fn entering_from_below_is_bottom() {
    assert_eq!(collide(v(0, 0), v(2, 2), v(0, 2), v(4, 4)), Some(Collision::Bottom));
}

#[test]
fn embedded_box_is_inside() {
    assert_eq!(collide(v(0, 0), v(2, 2), v(0, 0), v(4, 4)), Some(Collision::Inside));
}

#[test]
fn equal_depths_pick_the_horizontal_side() {
    // a cuts b's top-right corner with the same depth on both axes
    assert_eq!(collide(v(2, 2), v(2, 2), v(0, 0), v(4, 4)), Some(Collision::Right));
}

#[test]
fn smaller_vertical_depth_picks_the_vertical_side() {
    // deeper in on x than on y: the y side wins
    assert_eq!(collide(v(1, 2), v(4, 3), v(0, 0), v(4, 4)), Some(Collision::Top));
}
