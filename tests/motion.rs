use digger::constants::{BAG_SPEED, BLOCK_SIZE, MONSTER_SPEED, PIXEL, SHOT_SPEED};
use digger::immovable_objects::{Immovable, ImmovableType};
use digger::movable_objects::{bag_or_shot_crashed, move_object, overlaps, Direction, Movable, MovableType};
use digger::movements::Position;

fn actor(kind: MovableType, x: i64, y: i64, dir: Direction) -> Movable {
    Movable {
        type_object: kind,
        x,
        y,
        dir,
        activation_time: 0,
        previous_dir: Direction::Idle,
    }
}

fn player(x: i64, y: i64) -> Movable {
    actor(MovableType::Player, x, y, Direction::Idle)
}

#[test]
fn test_overlapping() {
    assert_eq!(overlaps(player(0, 0), player(0, PIXEL + BLOCK_SIZE)), false);
    assert_eq!(
        overlaps(
            player(2 * BLOCK_SIZE + 15 * PIXEL, 3 * BLOCK_SIZE),
            player(4 * BLOCK_SIZE + PIXEL, 3 * BLOCK_SIZE)
        ),
        false
    );
    assert_eq!(
        overlaps(
            player(2 * BLOCK_SIZE + 15 * PIXEL, 7 * BLOCK_SIZE),
            player(3 * BLOCK_SIZE + PIXEL, 7 * BLOCK_SIZE)
        ),
        true
    );
    assert_eq!(
        overlaps(
            player(4 * BLOCK_SIZE, 7 * BLOCK_SIZE + 6 * PIXEL),
            player(4 * BLOCK_SIZE, 7 * BLOCK_SIZE - 11 * PIXEL)
        ),
        true
    );
}

#[test]
fn test_moving() {
    let input = vec![
        actor(MovableType::Player, 4 * BLOCK_SIZE, 7 * BLOCK_SIZE, Direction::Idle),
        actor(MovableType::Monster, 5 * BLOCK_SIZE, 2 * BLOCK_SIZE, Direction::Idle),
    ];
    assert_eq!(move_object(input.clone()), input);

    let input1 = vec![
        actor(MovableType::Player, 4 * BLOCK_SIZE, 7 * BLOCK_SIZE, Direction::Right),
        actor(MovableType::Monster, 5 * BLOCK_SIZE, 2 * BLOCK_SIZE, Direction::Up),
    ];
    let output1 = vec![
        actor(MovableType::Player, 4 * BLOCK_SIZE, 7 * BLOCK_SIZE + BLOCK_SIZE, Direction::Right),
        actor(MovableType::Monster, 5 * BLOCK_SIZE - MONSTER_SPEED, 2 * BLOCK_SIZE, Direction::Up),
    ];
    assert_eq!(move_object(input1), output1);

    let input2 = vec![
        actor(MovableType::FallingBag, 13 * BLOCK_SIZE, 17 * BLOCK_SIZE, Direction::Down),
        actor(MovableType::Shot, 15 * BLOCK_SIZE, 12 * BLOCK_SIZE, Direction::Left),
    ];
    let output2 = vec![
        actor(MovableType::FallingBag, 13 * BLOCK_SIZE + BAG_SPEED, 17 * BLOCK_SIZE, Direction::Down),
        actor(MovableType::Shot, 15 * BLOCK_SIZE, 12 * BLOCK_SIZE - SHOT_SPEED, Direction::Left),
    ];
    assert_eq!(move_object(input2), output2);
}

#[test]
fn idle_actors_keep_their_position() {
    let input = vec![
        actor(MovableType::Shot, 10, 20, Direction::Idle),
        actor(MovableType::FallingBag, 30, 40, Direction::Left),
        actor(MovableType::Crashed, 50, 60, Direction::Down),
        actor(MovableType::Player, 70, 80, Direction::Idle),
    ];
    assert_eq!(move_object(input.clone()), input);
}

#[test]
fn every_kind_moves_at_its_speed() {
    let input = vec![
        actor(MovableType::Player, 0, 0, Direction::Down),
        actor(MovableType::Monster, 0, 0, Direction::Left),
        actor(MovableType::Shot, 0, 0, Direction::Right),
        actor(MovableType::Shot, 0, 0, Direction::Up),
    ];
    let out = move_object(input);
    assert_eq!((out[0].x, out[0].y), (300, 0));
    assert_eq!((out[1].x, out[1].y), (0, -5));
    assert_eq!((out[2].x, out[2].y), (0, 8));
    assert_eq!((out[3].x, out[3].y), (-8, 0));
}

#[test]
fn overlap_is_symmetric_on_examples() {
    let pairs = [
        (player(0, 0), player(0, 299)),
        (player(0, 0), player(0, 300)),
        (player(5, 0), player(0, 100)),
        (player(100, 7), player(390, 7)),
        (player(-40, 3), player(200, 3)),
    ];
    for (a, b) in pairs.iter() {
        assert_eq!(overlaps(*a, *b), overlaps(*b, *a));
    }
    assert!(overlaps(player(0, 0), player(0, 299)));
    assert!(!overlaps(player(0, 0), player(0, 300)));
    assert!(!overlaps(player(5, 0), player(0, 100)));
}

fn grid(kinds: &[&[ImmovableType]]) -> Vec<Vec<Immovable>> {
    let mut g = Vec::new();
    for (r, row) in kinds.iter().enumerate() {
        let mut line = Vec::new();
        for (c, k) in row.iter().enumerate() {
            line.push(Immovable {
                type_object: *k,
                x: r as i64 * BLOCK_SIZE,
                y: c as i64 * BLOCK_SIZE,
            });
        }
        g.push(line);
    }
    g
}

#[test]
fn crash_checks() {
    let (b, w) = (ImmovableType::Background, ImmovableType::Wall);
    let g = grid(&[&[b, b, w], &[b, w, b], &[b, b, b]]);
    // Falling onto a wall: crashed only near the start of the tile.
    assert!(bag_or_shot_crashed(actor(MovableType::FallingBag, 0, 300, Direction::Down), &g));
    assert!(bag_or_shot_crashed(actor(MovableType::FallingBag, 5, 300, Direction::Down), &g));
    assert!(!bag_or_shot_crashed(actor(MovableType::FallingBag, 10, 300, Direction::Down), &g));
    // Open ground below.
    assert!(!bag_or_shot_crashed(actor(MovableType::FallingBag, 0, 0, Direction::Down), &g));
    // Last row: nothing below.
    assert!(bag_or_shot_crashed(actor(MovableType::FallingBag, 605, 0, Direction::Down), &g));
    // Shot moving right into a wall, and off the right edge.
    assert!(bag_or_shot_crashed(actor(MovableType::Shot, 0, 304, Direction::Right), &g));
    assert!(!bag_or_shot_crashed(actor(MovableType::Shot, 0, 16, Direction::Right), &g));
    assert!(bag_or_shot_crashed(actor(MovableType::Shot, 300, 600, Direction::Right), &g));
    // Shot moving left off the grid and upwards at the top edge.
    assert!(bag_or_shot_crashed(actor(MovableType::Shot, 600, 0, Direction::Left), &g));
    assert!(!bag_or_shot_crashed(actor(MovableType::Shot, 600, 8, Direction::Left), &g));
    assert!(bag_or_shot_crashed(actor(MovableType::Shot, 0, 0, Direction::Up), &g));
    // Shot outside the grid.
    assert!(bag_or_shot_crashed(actor(MovableType::Shot, 0, 900, Direction::Left), &g));
    // No direction: never crashed.
    assert!(!bag_or_shot_crashed(actor(MovableType::Shot, 0, 900, Direction::Idle), &g));
}

#[test]
fn position_moves_two_pixels() {
    let mut p = Position { x: 10, y: 20 };
    p.move_to_direction(Direction::Up);
    assert_eq!(p, Position { x: 10, y: 18 });
    p.move_to_direction(Direction::Right);
    assert_eq!(p, Position { x: 12, y: 18 });
    p.move_to_direction(Direction::Down);
    p.move_to_direction(Direction::Left);
    p.move_to_direction(Direction::Idle);
    assert_eq!(p, Position { x: 10, y: 20 });
}

#[test]
fn position_moves_near_the_limits() {
    let mut p = Position { x: i32::MAX, y: i32::MIN + 2 };
    p.move_to_direction(Direction::Up);
    assert_eq!(p, Position { x: i32::MAX, y: i32::MIN });
    p.move_to_direction(Direction::Down);
    assert_eq!(p, Position { x: i32::MAX, y: i32::MIN + 2 });
}
