use digger::game::{Game, RuntimeError};
use digger::immovable_objects::ImmovableType;
use digger::level::{parse_token, split_row, Token};
use digger::movable_objects::{Direction, MovableType};

fn lines(rows: &[&str]) -> Vec<Vec<u8>> {
    rows.iter().map(|r| r.as_bytes().to_vec()).collect()
}

#[test]
fn rows_of_different_length_are_invalid() {
    let mut g = Game::new();
    assert_eq!(g.initialize(&lines(&["space,space", "space"]), 0), Err(RuntimeError::InvalidFile));
}

#[test]
fn unknown_word_ends_the_row() {
    let mut g = Game::new();
    assert_eq!(g.initialize(&lines(&["space,wall,gold", "wall,bogus,diamond"]), 0), Ok(()));
    assert_eq!(g.num_lines, 2);
    assert_eq!(g.line_len, 3);
    assert_eq!(g.immovable[0].len(), 3);
    assert_eq!(g.immovable[1].len(), 1);
    assert_eq!(g.immovable[0][2].type_object, ImmovableType::Bag);
    assert_eq!(g.immovable[1][0].type_object, ImmovableType::Wall);
    // The diamond after the unknown word is not read.
    assert_eq!(g.max_score, 0);
    assert_eq!(g.previous, vec![None; 6]);
}

#[test]
fn tokens_place_tiles_and_actors() {
    let mut g = Game::new();
    assert_eq!(g.initialize(&lines(&["player,diamond,", "spawn,diamond,"]), 5), Ok(()));
    assert_eq!(g.line_len, 2);
    assert_eq!(g.max_score, 40);
    assert_eq!(g.current_number_monsters, 1);
    assert_eq!((g.spawn_x, g.spawn_y), (300, 0));
    assert_eq!(g.last_spawned, 5);
    assert_eq!(g.immovable[1][1].type_object, ImmovableType::Emerald);
    assert_eq!((g.immovable[1][1].x, g.immovable[1][1].y), (300, 300));
    assert_eq!(g.movable.len(), 2);
    assert_eq!(g.movable[0].type_object, MovableType::Player);
    assert_eq!(g.movable[0].previous_dir, Direction::Right);
    assert_eq!(g.movable[1].type_object, MovableType::Monster);
    assert_eq!((g.movable[1].x, g.movable[1].y, g.movable[1].activation_time), (300, 0, 5));
}

#[test]
fn splitting_rows() {
    let s = |t: &str| -> Vec<Vec<u8>> { split_row(&t.as_bytes().to_vec()) };
    assert_eq!(s("a,b,c"), lines(&["a", "b", "c"]));
    assert_eq!(s("a,b,c,"), lines(&["a", "b", "c"]));
    assert_eq!(s("a,,b"), lines(&["a", "", "b"]));
    assert_eq!(s(""), Vec::<Vec<u8>>::new());
    assert_eq!(s(","), lines(&[""]));
}

#[test]
fn reading_tokens() {
    let p = |t: &str| parse_token(&t.as_bytes().to_vec());
    assert_eq!(p("space"), Some(Token::Space));
    assert_eq!(p("wall"), Some(Token::Wall));
    assert_eq!(p("gold"), Some(Token::Gold));
    assert_eq!(p("diamond"), Some(Token::Diamond));
    assert_eq!(p("player"), Some(Token::Player));
    assert_eq!(p("spawn"), Some(Token::Spawn));
    assert_eq!(p("Space"), None);
    assert_eq!(p("spaces"), None);
}

#[test]
fn empty_first_line_keeps_row_length_open() {
    let mut g = Game::new();
    assert_eq!(g.initialize(&lines(&["", "space,diamond,", "player,wall,"]), 3), Ok(()));
    assert_eq!(g.num_lines, 3);
    assert_eq!(g.line_len, 2);
    assert_eq!(g.immovable[0].len(), 0);
    assert_eq!(g.immovable[2][1].type_object, ImmovableType::Wall);
    assert_eq!(g.current_score, 0);
    assert_eq!(g.shots, 0);
    assert_eq!(g.last_spawned, 3);
    assert_eq!(g.previous, vec![None; 6]);
}
