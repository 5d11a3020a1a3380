use digger::collisions::check_for_colision;
use digger::constants::{BAG_SPEED, BLOCK_SIZE, MONSTER_SPEED};
use digger::game::{Command, Game, RuntimeError};
use digger::immovable_objects::{Immovable, ImmovableType};
use digger::movable_objects::{Direction, Movable, MovableType};
use digger::paths::find_shortest_paths;

fn load(rows: &[&str], now: u64) -> Game {
    let mut g = Game::new();
    let lines: Vec<Vec<u8>> = rows.iter().map(|r| r.as_bytes().to_vec()).collect();
    assert_eq!(g.initialize(&lines, now), Ok(()));
    g
}

fn actor(kind: MovableType, x: i64, y: i64, dir: Direction) -> Movable {
    Movable {
        type_object: kind,
        x,
        y,
        dir,
        activation_time: 0,
        previous_dir: Direction::Idle,
    }
}

fn player(g: &Game) -> Movable {
    *g.movable.iter().find(|a| a.type_object == MovableType::Player).unwrap()
}

fn count(g: &Game, kind: MovableType) -> usize {
    g.movable.iter().filter(|a| a.type_object == kind).count()
}

#[test]
fn diamond_row_gives_victory() {
    let mut g = load(&["player,space,diamond"], 0);
    assert_eq!(g.max_score, 20);
    assert_eq!(g.current_score, 0);
    g.key_down(Command::MoveRight, 0);
    assert_eq!(g.update_game(0), Ok(()));
    assert_eq!(g.current_score, 0);
    assert_eq!(player(&g).y, BLOCK_SIZE);
    g.key_down(Command::MoveRight, 0);
    assert_eq!(g.update_game(0), Err(RuntimeError::Victory));
    assert_eq!(g.current_score, 20);
}

#[test]
fn level_without_emeralds_is_won_at_once() {
    let mut g = load(&["player,space"], 0);
    assert_eq!(g.max_score, 0);
    assert_eq!(g.update_game(0), Err(RuntimeError::Victory));
}

#[test]
fn monster_on_player_cell_kills() {
    let mut g = load(&["spawn,player,diamond"], 0);
    assert_eq!(g.current_number_monsters, 1);
    g.key_down(Command::MoveLeft, 0);
    assert_eq!(player(&g).dir, Direction::Left);
    let score = g.current_score;
    assert_eq!(g.update_game(0), Err(RuntimeError::PlayerDead));
    // Nothing of that tick is applied.
    assert_eq!(player(&g).y, BLOCK_SIZE);
    assert_eq!(g.current_score, score);
}

#[test]
fn monster_placed_on_player_kills() {
    let mut g = load(&["player,space,diamond"], 0);
    let p = player(&g);
    g.movable.push(actor(MovableType::Monster, p.x, p.y, Direction::Idle));
    g.current_number_monsters = 1;
    assert_eq!(g.update_game(0), Err(RuntimeError::PlayerDead));
}

#[test]
fn monsters_steer_towards_player() {
    let mut g = load(&["player,space,space,spawn", "wall,wall,wall,diamond"], 0);
    assert_eq!(g.update_game(0), Ok(()));
    let m = *g.movable.iter().find(|a| a.type_object == MovableType::Monster).unwrap();
    assert_eq!(m.dir, Direction::Left);
    assert_eq!(g.previous[3], Some(2));
    assert_eq!(g.previous[0], None);
    assert_eq!(g.update_game(1), Ok(()));
    let m = *g.movable.iter().find(|a| a.type_object == MovableType::Monster).unwrap();
    assert_eq!(m.y, 3 * BLOCK_SIZE - MONSTER_SPEED);
}

#[test]
fn monsters_spawn_until_the_cap() {
    let mut g = load(&["player,wall,spawn", "diamond,wall,wall"], 0);
    assert_eq!(g.current_number_monsters, 1);
    assert_eq!(g.update_game(2), Ok(()));
    assert_eq!(count(&g, MovableType::Monster), 1);
    assert_eq!(g.update_game(3), Ok(()));
    assert_eq!(count(&g, MovableType::Monster), 2);
    assert_eq!(g.last_spawned, 3);
    assert_eq!(g.update_game(6), Ok(()));
    assert_eq!(g.update_game(9), Ok(()));
    assert_eq!(count(&g, MovableType::Monster), 3);
    assert_eq!(g.current_number_monsters, 3);
}

fn bag(g: &Game) -> Movable {
    *g.movable
        .iter()
        .find(|a| {
            (a.type_object == MovableType::FallingBag || a.type_object == MovableType::Crashed)
                && a.y == 0
        })
        .unwrap()
}

fn bag_level() -> Game {
    load(
        &[
            "gold,wall,wall",
            "player,space,wall",
            "space,space,diamond",
            "wall,wall,spawn",
        ],
        0,
    )
}

#[test]
fn bag_waits_then_falls_until_it_crashes() {
    let mut g = bag_level();
    assert_eq!(g.update_game(0), Ok(()));
    // Digging under the bag loosens it.
    assert_eq!(g.immovable[0][0].type_object, ImmovableType::Background);
    let b = bag(&g);
    assert_eq!((b.type_object, b.x, b.dir), (MovableType::FallingBag, 0, Direction::Idle));
    g.key_down(Command::MoveRight, 1);
    assert_eq!(g.update_game(1), Ok(()));
    assert_eq!(g.update_game(2), Ok(()));
    assert_eq!((bag(&g).x, bag(&g).dir), (0, Direction::Idle));
    assert_eq!(g.update_game(3), Ok(()));
    assert_eq!((bag(&g).x, bag(&g).dir), (0, Direction::Down));
    assert_eq!(g.update_game(4), Ok(()));
    assert_eq!(bag(&g).x, BAG_SPEED);
    for t in 5..123u64 {
        assert_eq!(g.update_game(t), Ok(()));
    }
    assert_eq!((bag(&g).type_object, bag(&g).x), (MovableType::FallingBag, 595));
    assert_eq!(g.update_game(123), Ok(()));
    let b = bag(&g);
    assert_eq!((b.type_object, b.x, b.dir), (MovableType::Crashed, 2 * BLOCK_SIZE, Direction::Idle));
}

#[test]
fn firing_needs_ammunition() {
    let mut g = bag_level();
    for t in 0..124u64 {
        if t == 1 {
            g.key_down(Command::MoveRight, t);
        }
        assert_eq!(g.update_game(t), Ok(()));
    }
    assert_eq!(g.shots, 0);
    let before = g.movable.len();
    g.key_down(Command::Fire, 124);
    assert_eq!(g.shots, 0);
    assert_eq!(g.movable.len(), before);
    assert_eq!(count(&g, MovableType::Shot), 0);

    g.key_down(Command::MoveDown, 124);
    assert_eq!(g.update_game(124), Ok(()));
    g.key_down(Command::MoveLeft, 125);
    assert_eq!(g.update_game(125), Ok(()));
    // The debris was picked up.
    assert_eq!(g.shots, 1);
    assert_eq!(count(&g, MovableType::Crashed), 0);
    let p = player(&g);
    assert_eq!(p.previous_dir, Direction::Left);

    g.key_down(Command::Fire, 126);
    assert_eq!(g.shots, 0);
    assert_eq!(count(&g, MovableType::Shot), 1);
    let s = *g.movable.last().unwrap();
    assert_eq!(
        s,
        Movable {
            type_object: MovableType::Shot,
            x: p.x,
            y: p.y - BLOCK_SIZE,
            dir: Direction::Left,
            activation_time: 126,
            previous_dir: Direction::Left,
        }
    );
    // The shot leaves the grid and is gone.
    assert_eq!(g.update_game(126), Ok(()));
    assert_eq!(count(&g, MovableType::Shot), 0);
}

#[test]
fn fire_with_ammunition_set_directly() {
    let mut g = load(&["space,player,space", "diamond,space,space"], 0);
    g.shots = 2;
    g.key_down(Command::Fire, 7);
    assert_eq!(g.shots, 1);
    let s = *g.movable.last().unwrap();
    assert_eq!((s.type_object, s.x, s.y, s.dir), (MovableType::Shot, 0, 2 * BLOCK_SIZE, Direction::Right));
}

#[test]
fn turning_into_a_bag_is_refused() {
    let mut g = load(&["player,gold", "space,diamond"], 0);
    g.key_down(Command::MoveRight, 0);
    assert_eq!(player(&g).dir, Direction::Idle);
    g.key_down(Command::MoveUp, 0);
    assert_eq!(player(&g).dir, Direction::Idle);
    g.key_down(Command::MoveDown, 0);
    assert_eq!(player(&g).dir, Direction::Down);
    g.key_down(Command::Other, 0);
    assert_eq!(player(&g).dir, Direction::Idle);
}

#[test]
fn walls_under_the_player_are_dug() {
    let mut g = load(&["player,wall", "space,diamond"], 0);
    g.key_down(Command::MoveRight, 0);
    assert_eq!(g.update_game(0), Ok(()));
    assert_eq!(g.immovable[0][1].type_object, ImmovableType::Background);
}

fn grid(rows: usize, cols: usize) -> Vec<Vec<Immovable>> {
    (0..rows)
        .map(|r| {
            (0..cols)
                .map(|c| Immovable {
                    type_object: ImmovableType::Background,
                    x: r as i64 * BLOCK_SIZE,
                    y: c as i64 * BLOCK_SIZE,
                })
                .collect()
        })
        .collect()
}

#[test]
fn path_map_of_open_square() {
    let g = grid(2, 2);
    let p = find_shortest_paths(&g, 2, 2, Some((0, 0)));
    assert_eq!(p, vec![None, Some(0), Some(0), Some(1)]);
    assert_eq!(find_shortest_paths(&g, 2, 2, Some((0, 0))), p);
    assert_eq!(find_shortest_paths(&g, 2, 2, None), vec![None; 4]);
}

#[test]
fn path_map_avoids_walls() {
    let mut g = grid(2, 3);
    g[0][1].type_object = ImmovableType::Wall;
    let p = find_shortest_paths(&g, 2, 3, Some((0, 0)));
    assert_eq!(p, vec![None, None, Some(5), Some(0), Some(3), Some(4)]);
}

#[test]
fn collisions_remove_and_convert() {
    let g = grid(3, 3);
    let actors = vec![
        actor(MovableType::Player, 0, 0, Direction::Idle),
        actor(MovableType::Monster, 600, 300, Direction::Up),
        actor(MovableType::Shot, 600, 400, Direction::Left),
        actor(MovableType::Crashed, 0, 100, Direction::Idle),
        actor(MovableType::FallingBag, 600, 0, Direction::Down),
        actor(MovableType::Converted, 300, 300, Direction::Idle),
    ];
    let res = check_for_colision(&actors, &g, 9).unwrap();
    assert_eq!(res.ammo_gained, 1);
    assert_eq!(res.monsters_killed, 1);
    assert_eq!(
        res.actors,
        vec![
            actors[0],
            Movable {
                type_object: MovableType::Crashed,
                x: 600,
                y: 0,
                dir: Direction::Idle,
                activation_time: 9,
                previous_dir: Direction::Idle,
            },
        ]
    );
    let deadly = vec![
        actor(MovableType::Player, 0, 0, Direction::Idle),
        actor(MovableType::FallingBag, 200, 0, Direction::Down),
    ];
    assert!(check_for_colision(&deadly, &g, 0).is_none());
}

#[test]
fn limits_follow_coordinates_and_ammunition() {
    let mut g = load(&["player,diamond"], 0);
    assert!(g.fits_limits());
    g.movable[0].x = digger::constants::COORD_LIMIT + 1;
    assert!(!g.fits_limits());
    g.movable[0].x = 0;
    g.shots = u64::MAX;
    assert!(!g.fits_limits());
}
