use emu_war::cell::Cell;
use emu_war::command::{parse_command, Command, Turn, TurnError};
use emu_war::game::{Dir, Game};
use emu_war::grid::OutOfBounds;
use emu_war::loader::from_loadfile;

fn holders(game: &Game) -> Vec<(usize, usize)> {
    let mut found = Vec::new();
    for y in 0..game.map().height() {
        for x in 0..game.map().width() {
            if game.map().tile_at(x, y).unwrap().contains(&Cell::Player) {
                found.push((x, y));
            }
        }
    }
    found
}

#[test]
fn step_right_on_three_by_three() {
    let mut game = from_loadfile(b"@..\n...\n..#", 3, 3).unwrap();
    assert_eq!(game.player().pos, (0, 0));
    assert_eq!(game.move_player(Dir::Right), Ok(()));
    assert_eq!(game.player().pos, (1, 0));
    assert_eq!(game.map().render(), b".@.\n...\n..#".to_vec());
    assert_eq!(game.map().render_glyph(0, 0), Ok(b'.'));
    assert_eq!(game.map().render_glyph(1, 0), Ok(b'@'));
    assert_eq!(game.map().render_glyph(2, 2), Ok(b'#'));
}

#[test]
fn each_direction_changes_one_coordinate_by_one() {
    let start = from_loadfile(b"...\n.@.\n...", 3, 3).unwrap();
    let mut game = start.clone();
    assert_eq!(game.move_player(Dir::Left), Ok(()));
    assert_eq!(game.player().pos, (0, 1));
    let mut game = start.clone();
    assert_eq!(game.move_player(Dir::Right), Ok(()));
    assert_eq!(game.player().pos, (2, 1));
    let mut game = start.clone();
    assert_eq!(game.move_player(Dir::Up), Ok(()));
    assert_eq!(game.player().pos, (1, 2));
    let mut game = start.clone();
    assert_eq!(game.move_player(Dir::Down), Ok(()));
    assert_eq!(game.player().pos, (1, 0));
}

#[test]
fn opposite_steps_return_the_player() {
    let start = from_loadfile(b"...\n.@.\n...", 3, 3).unwrap();
    let mut game = start.clone();
    game.move_player(Dir::Left).unwrap();
    game.move_player(Dir::Right).unwrap();
    assert_eq!(game.player().pos, (1, 1));
    game.move_player(Dir::Up).unwrap();
    game.move_player(Dir::Down).unwrap();
    assert_eq!(game.player().pos, (1, 1));
    assert_eq!(game.map().render(), start.map().render());
}

#[test]
fn the_player_is_added_after_the_occupants() {
    let mut game = from_loadfile(b"@*", 2, 1).unwrap();
    game.move_player(Dir::Right).unwrap();
    assert_eq!(game.map().tile_at(0, 0).unwrap(), &vec![Cell::Empty]);
    assert_eq!(game.map().tile_at(1, 0).unwrap(), &vec![Cell::Gold(42), Cell::Player]);
    assert_eq!(game.player().gold, 0);
}

#[test]
fn hostile_stays_when_the_player_leaves_its_tile() {
    let mut game = from_loadfile(b"@E.", 3, 1).unwrap();
    game.move_player(Dir::Right).unwrap();
    assert_eq!(game.map().tile_at(1, 0).unwrap(), &vec![Cell::Emu(0), Cell::Player]);
    assert_eq!(game.map().render(), b".@.".to_vec());
    game.move_player(Dir::Right).unwrap();
    assert_eq!(game.map().tile_at(1, 0).unwrap(), &vec![Cell::Emu(0)]);
    assert_eq!(game.map().tile_at(2, 0).unwrap(), &vec![Cell::Empty, Cell::Player]);
    assert_eq!(game.map().render(), b".E@".to_vec());
    assert_eq!(game.hostiles().len(), 1);
}

#[test]
fn gold_stays_when_the_player_leaves_its_tile() {
    let mut game = from_loadfile(b"@\n*\n.", 1, 3).unwrap();
    game.move_player(Dir::Up).unwrap();
    game.move_player(Dir::Up).unwrap();
    assert_eq!(game.map().tile_at(0, 1).unwrap(), &vec![Cell::Gold(42)]);
    assert_eq!(game.map().render(), b".\n*\n@".to_vec());
}

#[test]
fn walls_and_rock_do_not_stop_a_step() {
    let mut game = from_loadfile(b"@# ", 3, 1).unwrap();
    assert_eq!(game.move_player(Dir::Right), Ok(()));
    assert_eq!(game.map().tile_at(1, 0).unwrap(), &vec![Cell::Wall, Cell::Player]);
    assert_eq!(game.move_player(Dir::Right), Ok(()));
    assert_eq!(game.map().tile_at(2, 0).unwrap(), &vec![Cell::Rock, Cell::Player]);
    assert_eq!(game.map().render(), b".#@".to_vec());
}

#[test]
fn steps_off_the_grid_are_refused_at_every_corner() {
    let corners: [(&[u8], [Dir; 2]); 4] = [
        (b"@..\n...\n...", [Dir::Left, Dir::Down]),
        (b"..@\n...\n...", [Dir::Right, Dir::Down]),
        (b"...\n...\n@..", [Dir::Left, Dir::Up]),
        (b"...\n...\n..@", [Dir::Right, Dir::Up]),
    ];
    for (text, refused) in corners {
        let start = from_loadfile(text, 3, 3).unwrap();
        for dir in refused {
            let mut game = start.clone();
            assert_eq!(game.move_player(dir), Err(OutOfBounds));
            assert_eq!(game, start);
        }
    }
}

#[test]
fn steps_off_the_grid_are_refused_at_every_edge() {
    let edges: [(&[u8], Dir); 4] = [
        (b"...\n@..\n...", Dir::Left),
        (b"...\n..@\n...", Dir::Right),
        (b".@.\n...\n...", Dir::Down),
        (b"...\n...\n.@.", Dir::Up),
    ];
    for (text, refused) in edges {
        let start = from_loadfile(text, 3, 3).unwrap();
        for dir in [Dir::Left, Dir::Right, Dir::Up, Dir::Down] {
            let mut game = start.clone();
            if dir == refused {
                assert_eq!(game.move_player(dir), Err(OutOfBounds));
                assert_eq!(game, start);
            } else {
                assert_eq!(game.move_player(dir), Ok(()));
                assert_ne!(game, start);
            }
        }
    }
}

#[test]
fn no_step_on_a_grid_of_one_tile() {
    let start = from_loadfile(b"@", 1, 1).unwrap();
    for dir in [Dir::Left, Dir::Right, Dir::Up, Dir::Down] {
        let mut game = start.clone();
        assert_eq!(game.move_player(dir), Err(OutOfBounds));
        assert_eq!(game, start);
    }
}

#[test]
fn one_tile_holds_the_player_after_every_step() {
    let mut game = from_loadfile(b"@.E.\n.*#.\n. ..", 4, 3).unwrap();
    let walk = [
        Dir::Left,
        Dir::Right,
        Dir::Right,
        Dir::Up,
        Dir::Up,
        Dir::Up,
        Dir::Right,
        Dir::Right,
        Dir::Down,
        Dir::Left,
        Dir::Left,
        Dir::Left,
        Dir::Left,
        Dir::Down,
        Dir::Down,
    ];
    assert_eq!(holders(&game), vec![game.player().pos]);
    for dir in walk {
        let _ = game.move_player(dir);
        assert_eq!(holders(&game), vec![game.player().pos]);
    }
    assert_eq!(game.player().pos, (0, 0));
    assert_eq!(game.map().render(), b"@.E.\n.*#.\n. ..".to_vec());
}

#[test]
fn keys_name_their_commands() {
    assert_eq!(parse_command(b'h'), Some(Command::Move(Dir::Left)));
    assert_eq!(parse_command(b'j'), Some(Command::Move(Dir::Up)));
    assert_eq!(parse_command(b'k'), Some(Command::Move(Dir::Down)));
    assert_eq!(parse_command(b'l'), Some(Command::Move(Dir::Right)));
    assert_eq!(parse_command(b','), Some(Command::Pass));
    assert_eq!(parse_command(b'q'), Some(Command::Quit));
    assert_eq!(parse_command(b'x'), None);
    assert_eq!(parse_command(b'H'), None);
    assert_eq!(parse_command(b'\n'), None);
}

#[test]
fn a_turn_moves_or_leaves_the_game_alone() {
    let start = from_loadfile(b"@.\n..", 2, 2).unwrap();
    let mut game = start.clone();
    assert_eq!(game.turn(b','), Ok(Turn::Passed));
    assert_eq!(game, start);
    assert_eq!(game.turn(b'q'), Ok(Turn::Quit));
    assert_eq!(game, start);
    assert_eq!(game.turn(b'z'), Err(TurnError::UnknownCommand(b'z')));
    assert_eq!(game, start);
    assert_eq!(game.turn(b'h'), Err(TurnError::OutOfBounds));
    assert_eq!(game, start);
    assert_eq!(game.turn(b'k'), Err(TurnError::OutOfBounds));
    assert_eq!(game, start);
    assert_eq!(game.turn(b'l'), Ok(Turn::Moved));
    assert_eq!(game.player().pos, (1, 0));
    assert_eq!(game.turn(b'j'), Ok(Turn::Moved));
    assert_eq!(game.player().pos, (1, 1));
    assert_eq!(game.map().render(), b"..\n.@".to_vec());
}
