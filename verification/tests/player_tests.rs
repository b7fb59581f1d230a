use gd_physics::fx::{FX_SCALE, HALF_OBJECT_SIZE, OBJECT_SIZE, QUARTER_TURN};
use gd_physics::geometry::AxisBoundingBox;
use gd_physics::object::{Object, PlayerMode, PortalIds};
use gd_physics::player::{Player, JUMP_ACCEL, PAD_BOOST};

fn units(v: i64) -> i64 {
    v * FX_SCALE
}

/// One sixtieth of a second, the host's nominal frame delta.
const FRAME: i64 = 166_667;

fn solid_cell(x: i64, y: i64) -> Object {
    let mut o = Object::new();
    o.x = x;
    o.y = y;
    o
}

fn trigger_at(id: i32, x: i64, y: i64) -> Object {
    let mut o = Object::new();
    o.id = id;
    o.x = x;
    o.y = y;
    o.solid = false;
    o
}

#[test]
fn portal_ids_match_their_object_ids() {
    assert_eq!(PortalIds::Cube.object_id(), 12);
    assert_eq!(PortalIds::Ship.object_id(), 13);
    assert_eq!(PortalIds::YellowGravity.object_id(), 11);
    assert_eq!(PortalIds::BlueGravity.object_id(), 10);
    assert_eq!(PortalIds::Ball.object_id(), 47);
    assert_eq!(PortalIds::Ufo.object_id(), 111);
}

#[test]
fn bounding_boxes_are_centered_on_the_player() {
    let mut p = Player::new();
    p.x = units(10);
    p.y = units(20);
    let bb = p.bounding_box();
    assert_eq!(bb.x, units(10) - HALF_OBJECT_SIZE);
    assert_eq!(bb.y, units(20) + HALF_OBJECT_SIZE);
    assert_eq!(bb.width, OBJECT_SIZE);
    let inner = p.inner_bounding_box();
    assert_eq!(inner.width, units(9));
    assert_eq!(inner.height, units(9));
}

#[test]
fn ground_and_ceiling_default_by_mode() {
    let mut p = Player::new();
    assert_eq!(p.ground_height(), 0);
    assert_eq!(p.ceiling_height(), 300 * OBJECT_SIZE);
    p.mode = PlayerMode::Ship;
    p.portal_y = units(247);
    // Snapped down to the grid (240), floored at five cells (150), less the
    // five-cell reference.
    assert_eq!(p.ground_height(), units(240) - units(150));
    assert_eq!(p.ceiling_height(), units(90) + 10 * OBJECT_SIZE);
}

#[test]
fn press_and_release_are_edge_triggered() {
    let mut p = Player::new();
    p.press_jump();
    assert!(p.is_holding);
    assert!(p.is_buffering);
    p.release_jump();
    assert!(!p.is_holding);
    assert!(!p.is_buffering);
}

#[test]
fn terminal_fall_lands_on_a_block_without_overshoot() {
    // A solid cell whose top sits at altitude 30; the player falls at the
    // terminal speed and must clamp to 30 + 15 with zero velocity within the
    // crossing substep (here the frame's last), not pass through the floor.
    let objects = vec![solid_cell(0, units(15))];
    let mut p = Player::new();
    p.y = units(52);
    p.y_vel = -units(15);
    p.update(FRAME, &objects);
    assert!(!p.is_dead());
    assert_eq!(p.y, units(30) + HALF_OBJECT_SIZE);
    assert_eq!(p.y_vel, 0);
    assert!(p.is_on_ground());
}

#[test]
fn cube_landing_squares_rotation_and_zeroes_velocity() {
    let objects = vec![solid_cell(0, units(15))];
    let mut p = Player::new();
    p.y = units(52);
    p.y_vel = -units(15);
    p.rotation = 1_234_567_890;
    p.update(FRAME, &objects);
    assert_eq!(p.y_vel, 0);
    assert_eq!(p.rotation % QUARTER_TURN, 0);
}

#[test]
fn deadly_touch_ends_the_update_dead() {
    let mut spike = solid_cell(0, 0);
    spike.death = true;
    let mut p = Player::new();
    p.y = units(10);
    p.update(FRAME, &vec![spike]);
    assert!(p.is_dead());
}

#[test]
fn triggers_before_a_deadly_touch_still_fire() {
    // The pad is scanned first and boosts; the spike then kills in the same
    // substep, ending the whole update.
    let pad = trigger_at(35, 0, 0);
    let mut spike = solid_cell(0, 0);
    spike.death = true;
    let mut p = Player::new();
    p.y = units(10);
    p.update(FRAME, &vec![pad, spike]);
    assert!(p.is_dead());
    assert_eq!(p.y_vel, PAD_BOOST);
}

#[test]
fn dead_player_is_frozen_until_reset() {
    let mut spike = solid_cell(0, 0);
    spike.death = true;
    let mut p = Player::new();
    p.y = units(10);
    p.update(FRAME, &vec![spike]);
    let frozen = (p.x, p.y, p.y_vel);
    p.update(FRAME, &vec![spike]);
    assert_eq!((p.x, p.y, p.y_vel), frozen);
    p.reset();
    assert!(!p.is_dead());
}

#[test]
fn ship_portal_switches_mode_and_caches_the_floor() {
    let portal = trigger_at(13, 0, units(247));
    let mut p = Player::new();
    p.y = units(247);
    p.update(FRAME, &vec![portal]);
    assert_eq!(p.mode, PlayerMode::Ship);
    assert_eq!(p.portal_y, units(240));
    let cube_portal = trigger_at(12, p.x, p.y);
    p.update(FRAME, &vec![cube_portal]);
    assert_eq!(p.mode, PlayerMode::Cube);
}

#[test]
fn jump_pad_boosts_on_touch() {
    let pad = trigger_at(35, 0, 0);
    let mut p = Player::new();
    p.y = units(10);
    p.update(FRAME, &vec![pad]);
    assert!(p.y_vel > 0);
}

#[test]
fn jump_orb_fires_only_while_buffered() {
    let orb = trigger_at(36, 0, units(50));
    let mut p = Player::new();
    p.y = units(50);
    p.y_vel = 0;
    let mut q = p;
    // Untouched input: the orb does nothing; gravity pulls down.
    p.update(FRAME, &vec![orb]);
    assert!(p.y_vel < 0);
    // A buffered press arms it: the first substep boosts to the jump speed.
    q.press_jump();
    q.update(FRAME, &vec![orb]);
    assert!(q.y_vel > 0);
}

#[test]
fn gravity_trigger_flips_the_fall() {
    let flip = trigger_at(11, 0, units(50));
    let mut p = Player::new();
    p.y = units(50);
    p.update(FRAME, &vec![flip]);
    // Upside down, gravity accelerates the player upward.
    assert!(p.y_vel > 0);
}

#[test]
fn grounded_hold_launches_a_jump() {
    let mut p = Player::new();
    p.y = HALF_OBJECT_SIZE;
    p.update(FRAME, &Vec::new());
    assert!(p.is_on_ground());
    p.press_jump();
    p.update(FRAME, &Vec::new());
    assert!(!p.is_on_ground());
    assert!(p.y_vel > 0);
    assert!(p.y_vel <= JUMP_ACCEL);
}

#[test]
fn ship_clamps_at_the_corridor_ceiling() {
    let mut p = Player::new();
    p.mode = PlayerMode::Ship;
    p.portal_y = units(150);
    p.y = units(95);
    p.y_vel = units(8);
    p.is_holding = true;
    for _ in 0..400 {
        p.update(FRAME, &Vec::new());
    }
    // The corridor spans ground 0 to ceiling 100 cells above the reference.
    let ceiling = p.ceiling_height();
    assert!(p.y + HALF_OBJECT_SIZE <= ceiling);
    assert_eq!(p.y, ceiling - HALF_OBJECT_SIZE);
}

#[test]
fn squish_inside_a_block_is_fatal() {
    // The player's center sits inside the cell, below its steppable top.
    let block = solid_cell(0, 0);
    let mut p = Player::new();
    p.y = 0;
    p.update(FRAME, &vec![block]);
    assert!(p.is_dead());
}
