use tank_battle::config::{GameConfig, GridPosition, PlayerConfig, WorldConfig};
use tank_battle::direction::GameDirection;
use tank_battle::motion::{moving_action, resolve, turns, Boundary, Moving, Position};
use tank_battle::input::{BoundKey, Player};
use tank_battle::menu::GameState;
use tank_battle::world::{spawn_player, spawn_players, Tank};

fn bounds() -> Boundary {
    Boundary { max: Position { x: 100, y: 50, z: 0 }, min: Position { x: -100, y: -50, z: 0 } }
}

#[test]
fn right_edge_lands_exactly_on_boundary() {
    let b = bounds();
    let mut p = Position { x: b.max.x - 1, y: 0, z: 0 };
    moving_action(&mut p, &Moving { speed: 5, direction: GameDirection::Right }, &b);
    assert_eq!(p, Position { x: b.max.x, y: 0, z: 0 });
}

#[test]
fn idle_entity_keeps_its_frame() {
    let idle = Moving { speed: 0, direction: GameDirection::Up };
    let mut index: usize = 1;
    for _ in 0..5 {
        turns(&mut index, &idle);
        assert_eq!(index, 1);
    }
}

#[test]
fn moving_entity_flips_frames_every_tick() {
    let m = Moving { speed: 2, direction: GameDirection::Left };
    let mut index: usize = 4;
    turns(&mut index, &m);
    assert_eq!(index, 5);
    turns(&mut index, &m);
    assert_eq!(index, 4);
    let mut other: usize = 0;
    turns(&mut other, &m);
    assert_eq!(other, 4);
}

#[test]
fn one_tick_moves_by_speed_times_unit_vector() {
    let b = bounds();
    let start = Position { x: 10, y: -7, z: 3 };
    let cases = [
        (GameDirection::Up, Position { x: 10, y: -1, z: 3 }),
        (GameDirection::Down, Position { x: 10, y: -13, z: 3 }),
        (GameDirection::Left, Position { x: 4, y: -7, z: 3 }),
        (GameDirection::Right, Position { x: 16, y: -7, z: 3 }),
    ];
    for (d, want) in cases {
        let mut p = start;
        moving_action(&mut p, &Moving { speed: 6, direction: d }, &b);
        assert_eq!(p, want);
    }
}

#[test]
fn clamping_twice_equals_clamping_once() {
    let b = bounds();
    let mut p = Position { x: 250, y: -80, z: 9 };
    p.boundary(&b);
    assert_eq!(p, Position { x: 100, y: -50, z: 9 });
    let once = p;
    p.boundary(&b);
    assert_eq!(p, once);
}

#[test]
fn inside_positions_are_left_alone() {
    let b = bounds();
    let mut p = Position { x: -100, y: 50, z: 0 };
    p.boundary(&b);
    assert_eq!(p, Position { x: -100, y: 50, z: 0 });
}

#[test]
fn pinned_tank_stays_at_the_wall() {
    let b = bounds();
    let mut p = Position { x: 0, y: -50, z: 0 };
    let m = Moving { speed: 5, direction: GameDirection::Down };
    for _ in 0..3 {
        moving_action(&mut p, &m, &b);
        assert_eq!(p, Position { x: 0, y: -50, z: 0 });
    }
}

#[test]
fn extreme_values_do_not_overflow() {
    let b = Boundary {
        max: Position { x: i64::MAX, y: i64::MAX, z: 0 },
        min: Position { x: i64::MIN, y: i64::MIN, z: 0 },
    };
    let mut p = Position { x: i64::MAX - 1, y: i64::MIN + 1, z: 0 };
    moving_action(&mut p, &Moving { speed: u32::MAX, direction: GameDirection::Right }, &b);
    assert_eq!(p.x, i64::MAX);
    moving_action(&mut p, &Moving { speed: u32::MAX, direction: GameDirection::Down }, &b);
    assert_eq!(p.y, i64::MIN);
}

#[test]
fn resolver_sets_cruise_speed_and_ignores_foreign_keys() {
    let mut m = Moving { speed: 0, direction: GameDirection::Up };
    resolve(&mut m, Some(BoundKey::D), Player::One, 9);
    assert_eq!(m, Moving { speed: 9, direction: GameDirection::Right });
    resolve(&mut m, Some(BoundKey::Up), Player::One, 9);
    assert_eq!(m, Moving { speed: 9, direction: GameDirection::Right });
    resolve(&mut m, None, Player::One, 9);
    assert_eq!(m, Moving { speed: 0, direction: GameDirection::Right });
}

#[test]
fn direction_table_values() {
    assert_eq!(GameDirection::Left.unit_vector(), (-1, 0));
    assert_eq!(GameDirection::Right.unit_vector(), (1, 0));
    assert_eq!(GameDirection::Up.unit_vector(), (0, 1));
    assert_eq!(GameDirection::Down.unit_vector(), (0, -1));
    assert_eq!(GameDirection::Up.frame_indices(), [0, 1]);
    assert_eq!(GameDirection::Down.frame_indices(), [2, 3]);
    assert_eq!(GameDirection::Left.frame_indices(), [4, 5]);
    assert_eq!(GameDirection::Right.frame_indices(), [6, 7]);
}

#[test]
fn spawn_places_tanks_on_the_grid() {
    let p1 = PlayerConfig {
        moving: Moving { speed: 2, direction: GameDirection::Right },
        position: GridPosition { x: 2, y: -3, z: 1 },
    };
    let t = spawn_player(&p1);
    assert_eq!(t, Tank { moving: p1.moving, transform: Position { x: 48, y: -72, z: 1 }, sprite_index: 6 });
    let p2 = PlayerConfig {
        moving: Moving { speed: 2, direction: GameDirection::Down },
        position: GridPosition { x: 0, y: 0, z: 2 },
    };
    let cfg = GameConfig {
        world: WorldConfig { size: Position { x: 26, y: 26, z: 0 }, step: 24, boundary: bounds() },
        player1: p1,
        player2: p2,
    };
    let (a, b, next) = spawn_players(&cfg);
    assert_eq!(next, GameState::Playing);
    assert_eq!(a.transform, Position { x: 48, y: -72, z: 1 });
    assert_eq!(b, Tank { moving: p2.moving, transform: Position { x: 0, y: 0, z: 2 }, sprite_index: 2 });
}
