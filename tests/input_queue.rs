use tank_battle::config::{GameConfig, GridPosition, PlayerConfig, WorldConfig};
use tank_battle::direction::GameDirection;
use tank_battle::input::{bound_keys, direction_of, BoundKey, InputQueue, KeyEdge, KeyState, Player};
use tank_battle::motion::{Boundary, Moving, Position};
use tank_battle::world::{player1_moving, player2_moving};

fn config(speed1: u32, speed2: u32) -> GameConfig {
    let boundary = Boundary {
        max: Position { x: 300, y: 300, z: 0 },
        min: Position { x: -300, y: -300, z: 0 },
    };
    GameConfig {
        world: WorldConfig { size: Position { x: 26, y: 26, z: 0 }, step: 24, boundary },
        player1: PlayerConfig {
            moving: Moving { speed: speed1, direction: GameDirection::Up },
            position: GridPosition { x: -4, y: -12, z: 1 },
        },
        player2: PlayerConfig {
            moving: Moving { speed: speed2, direction: GameDirection::Up },
            position: GridPosition { x: 4, y: -12, z: 1 },
        },
    }
}

fn press(keys: &mut KeyState, k: BoundKey) {
    keys.save_key_bind(&vec![k], &vec![], &vec![k]);
}

fn release(keys: &mut KeyState, k: BoundKey) {
    keys.save_key_bind(&vec![], &vec![k], &vec![]);
}

#[test]
fn most_recent_key_steers_and_release_reverts() {
    let cfg = config(3, 4);
    let mut keys = KeyState::new();
    let mut moving = Moving { speed: 0, direction: GameDirection::Down };
    press(&mut keys, BoundKey::W);
    press(&mut keys, BoundKey::A);
    player1_moving(&keys, &cfg, &mut moving);
    assert_eq!(moving.direction, GameDirection::Left);
    assert_eq!(moving.speed, 3);
    release(&mut keys, BoundKey::A);
    player1_moving(&keys, &cfg, &mut moving);
    assert_eq!(moving.direction, GameDirection::Up);
    assert_eq!(moving.speed, 3);
}

#[test]
fn queue_has_no_duplicates_and_keeps_press_order() {
    let mut q = InputQueue::new(Player::One);
    let edges = [
        KeyEdge::Pressed(BoundKey::W),
        KeyEdge::Pressed(BoundKey::D),
        KeyEdge::Pressed(BoundKey::W),
        KeyEdge::Pressed(BoundKey::S),
        KeyEdge::Released(BoundKey::D),
        KeyEdge::Pressed(BoundKey::A),
        KeyEdge::Pressed(BoundKey::D),
    ];
    for e in edges {
        q.apply(e);
    }
    assert_eq!(q.keys(), vec![BoundKey::W, BoundKey::S, BoundKey::A, BoundKey::D]);
    assert_eq!(q.current(), Some(BoundKey::D));
}

#[test]
fn releasing_a_middle_key_keeps_the_others_in_order() {
    let mut q = InputQueue::new(Player::Two);
    q.key_down(BoundKey::Up);
    q.key_down(BoundKey::Left);
    q.key_down(BoundKey::Down);
    q.key_up(BoundKey::Left);
    assert_eq!(q.keys(), vec![BoundKey::Up, BoundKey::Down]);
    assert_eq!(q.current(), Some(BoundKey::Down));
}

#[test]
fn releasing_current_key_hands_over_to_the_previous_press() {
    let mut q = InputQueue::new(Player::One);
    q.key_down(BoundKey::W);
    q.key_down(BoundKey::A);
    q.key_down(BoundKey::S);
    q.key_up(BoundKey::S);
    assert_eq!(q.current(), Some(BoundKey::A));
    q.key_up(BoundKey::A);
    assert_eq!(q.current(), Some(BoundKey::W));
    q.key_up(BoundKey::W);
    assert_eq!(q.current(), None);
}

#[test]
fn keys_of_the_other_player_are_ignored() {
    let mut q = InputQueue::new(Player::One);
    q.key_down(BoundKey::Up);
    q.key_down(BoundKey::Right);
    assert_eq!(q.keys(), Vec::<BoundKey>::new());
    let mut keys = KeyState::new();
    keys.save_key_bind(&vec![BoundKey::W, BoundKey::Left], &vec![], &vec![BoundKey::W, BoundKey::Left]);
    assert_eq!(keys.input1_queue.keys(), vec![BoundKey::W]);
    assert_eq!(keys.input2_queue.keys(), vec![BoundKey::Left]);
}

#[test]
fn one_frame_takes_keys_in_binding_order() {
    let mut keys = KeyState::new();
    keys.save_key_bind(&vec![BoundKey::D, BoundKey::W, BoundKey::S], &vec![], &vec![BoundKey::D, BoundKey::W, BoundKey::S]);
    assert_eq!(keys.input1_queue.keys(), vec![BoundKey::W, BoundKey::S, BoundKey::D]);
    keys.save_key_bind(&vec![BoundKey::A], &vec![BoundKey::W, BoundKey::D], &vec![BoundKey::S, BoundKey::A]);
    assert_eq!(keys.input1_queue.keys(), vec![BoundKey::S, BoundKey::A]);
}

#[test]
fn releasing_an_unheld_key_changes_nothing() {
    let mut q = InputQueue::new(Player::Two);
    q.key_down(BoundKey::Right);
    q.key_up(BoundKey::Left);
    assert_eq!(q.keys(), vec![BoundKey::Right]);
}

#[test]
fn empty_queue_stops_and_keeps_direction() {
    let cfg = config(3, 4);
    let keys = KeyState::new();
    let mut moving = Moving { speed: 7, direction: GameDirection::Right };
    player1_moving(&keys, &cfg, &mut moving);
    assert_eq!(moving, Moving { speed: 0, direction: GameDirection::Right });
    let mut other = Moving { speed: 2, direction: GameDirection::Down };
    player2_moving(&keys, &cfg, &mut other);
    assert_eq!(other, Moving { speed: 0, direction: GameDirection::Down });
}

#[test]
fn player_two_steers_with_arrow_keys() {
    let cfg = config(3, 4);
    let mut keys = KeyState::new();
    let mut moving = Moving { speed: 0, direction: GameDirection::Up };
    press(&mut keys, BoundKey::Right);
    player2_moving(&keys, &cfg, &mut moving);
    assert_eq!(moving, Moving { speed: 4, direction: GameDirection::Right });
    press(&mut keys, BoundKey::Down);
    player2_moving(&keys, &cfg, &mut moving);
    assert_eq!(moving, Moving { speed: 4, direction: GameDirection::Down });
}

#[test]
fn bindings_map_to_directions() {
    assert_eq!(bound_keys(Player::One), [BoundKey::W, BoundKey::A, BoundKey::S, BoundKey::D]);
    assert_eq!(bound_keys(Player::Two), [BoundKey::Up, BoundKey::Left, BoundKey::Down, BoundKey::Right]);
    assert_eq!(direction_of(Player::One, BoundKey::S), Some(GameDirection::Down));
    assert_eq!(direction_of(Player::Two, BoundKey::Left), Some(GameDirection::Left));
    assert_eq!(direction_of(Player::Two, BoundKey::W), None);
}

#[test]
fn key_tapped_within_one_frame_leaves_no_trace() {
    let cfg = config(3, 4);
    let mut keys = KeyState::new();
    keys.save_key_bind(&vec![BoundKey::W], &vec![BoundKey::W], &vec![]);
    assert_eq!(keys.input1_queue.keys(), Vec::<BoundKey>::new());
    let mut moving = Moving { speed: 3, direction: GameDirection::Left };
    player1_moving(&keys, &cfg, &mut moving);
    assert_eq!(moving, Moving { speed: 0, direction: GameDirection::Left });
}

#[test]
fn tap_while_other_keys_are_held_removes_only_the_tapped_key() {
    let mut keys = KeyState::new();
    press(&mut keys, BoundKey::W);
    keys.save_key_bind(&vec![BoundKey::D], &vec![BoundKey::D], &vec![BoundKey::W]);
    assert_eq!(keys.input1_queue.keys(), vec![BoundKey::W]);
}

#[test]
fn release_and_press_again_within_one_frame_starts_a_new_hold() {
    let mut keys = KeyState::new();
    press(&mut keys, BoundKey::Up);
    press(&mut keys, BoundKey::Left);
    keys.save_key_bind(&vec![BoundKey::Up], &vec![BoundKey::Up], &vec![BoundKey::Up, BoundKey::Left]);
    assert_eq!(keys.input2_queue.keys(), vec![BoundKey::Left, BoundKey::Up]);
    assert_eq!(keys.input2_queue.current(), Some(BoundKey::Up));
}
