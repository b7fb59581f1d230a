use gd_physics::fx::{FX_SCALE, HALF_OBJECT_SIZE, OBJECT_SIZE};
use gd_physics::geometry::AxisBoundingBox;

fn units(v: i64) -> i64 {
    v * FX_SCALE
}

fn cell_at(x: i64, y: i64) -> AxisBoundingBox {
    AxisBoundingBox { x, y, width: OBJECT_SIZE, height: OBJECT_SIZE }
}

#[test]
fn overlapping_boxes_intersect() {
    let a = cell_at(0, 0);
    let b = cell_at(units(10), -units(10));
    assert!(a.intersects(&b));
}

#[test]
fn distant_boxes_do_not_intersect() {
    let a = cell_at(0, 0);
    let b = cell_at(units(100), 0);
    assert!(!a.intersects(&b));
}

#[test]
fn touching_edges_do_not_count_as_colliding() {
    // The overlap test is strict: centers exactly one extent-sum apart miss.
    let a = cell_at(0, 0);
    let right = cell_at(OBJECT_SIZE, 0);
    let below = cell_at(0, -OBJECT_SIZE);
    assert!(!a.intersects(&right));
    assert!(!a.intersects(&below));
}

#[test]
fn intersects_is_symmetric() {
    let a = cell_at(units(3), units(7));
    let b = cell_at(units(3) + HALF_OBJECT_SIZE, units(7) - HALF_OBJECT_SIZE);
    let c = cell_at(units(300), units(7));
    assert_eq!(a.intersects(&b), b.intersects(&a));
    assert_eq!(a.intersects(&c), c.intersects(&a));
    assert!(a.intersects(&b));
    assert!(!a.intersects(&c));
}

#[test]
fn offset_by_translates() {
    let a = AxisBoundingBox { x: units(1), y: units(2), width: units(3), height: units(4) };
    let moved = a.offset_by(units(10), -units(20));
    assert_eq!(moved.x, units(11));
    assert_eq!(moved.y, -units(18));
    assert_eq!(moved.width, units(3));
    assert_eq!(moved.height, units(4));
    // The original is untouched.
    assert_eq!(a.x, units(1));
}

#[test]
fn offset_by_composes_with_translation_sums() {
    let a = cell_at(units(5), units(6));
    let two_steps = a.offset_by(units(2), units(3)).offset_by(units(4), -units(10));
    let one_step = a.offset_by(units(6), -units(7));
    assert_eq!(two_steps, one_step);
}
