use gd_physics::fx::FX_SCALE;
use gd_physics::level::Level;
use gd_physics::object::{Object, PlayerMode};

fn units(v: i64) -> i64 {
    v * FX_SCALE
}

fn three_checkpoint_level() -> Level {
    let mut block = Object::new();
    block.x = units(30);
    block.y = units(15);
    Level::from_parts(
        vec![block],
        vec![(-units(60), units(15)), (units(100), units(50)), (units(200), units(80))],
    )
}

#[test]
fn reset_teleports_to_the_active_checkpoint() {
    let mut level = three_checkpoint_level();
    level.reset();
    assert_eq!(level.player.x, -units(60));
    assert_eq!(level.player.y, units(15));
    assert_eq!(level.player.mode, PlayerMode::Cube);
    assert!(!level.player.is_dead());
}

#[test]
fn next_start_pos_advances_and_wraps() {
    let mut level = three_checkpoint_level();
    level.next_start_pos();
    level.reset();
    assert_eq!((level.player.x, level.player.y), (units(100), units(50)));
    level.next_start_pos();
    level.reset();
    assert_eq!((level.player.x, level.player.y), (units(200), units(80)));
    level.next_start_pos();
    level.reset();
    assert_eq!((level.player.x, level.player.y), (-units(60), units(15)));
}

#[test]
fn cycling_as_many_times_as_there_are_checkpoints_returns_to_the_start() {
    let mut level = three_checkpoint_level();
    level.next_start_pos();
    level.reset();
    let marker = (level.player.x, level.player.y);
    for _ in 0..3 {
        level.next_start_pos();
    }
    level.reset();
    assert_eq!((level.player.x, level.player.y), marker);
}

#[test]
fn update_forwards_time_to_the_player() {
    let mut level = three_checkpoint_level();
    level.reset();
    let x0 = level.player.x;
    level.update(166_667);
    assert!(level.player.x > x0);
}

#[test]
fn reset_revives_a_dead_player() {
    let mut spike = Object::new();
    spike.death = true;
    let mut level = Level::from_parts(vec![spike], vec![(0, units(1))]);
    level.reset();
    level.update(166_667);
    assert!(level.player.is_dead());
    level.reset();
    assert!(!level.player.is_dead());
    assert_eq!(level.player.y_vel, 0);
}
