use emu_war::cell::{
    tile_has_player, tile_without_player, Cell, GLYPH_EMPTY, GLYPH_EMU, GLYPH_GOLD, GLYPH_PLAYER,
    GLYPH_ROCK, GLYPH_WALL,
};
use emu_war::grid::{OutOfBounds, NEWLINE};
use emu_war::loader::from_loadfile;

#[test]
fn only_the_player_is_the_player() {
    assert!(Cell::Player.is_player());
    assert!(!Cell::Rock.is_player());
    assert!(!Cell::Empty.is_player());
    assert!(!Cell::Gold(42).is_player());
    assert!(!Cell::Emu(0).is_player());
    assert!(!Cell::Wall.is_player());
}

#[test]
fn glyphs_are_the_characters_of_the_text() {
    assert_eq!(GLYPH_ROCK, b' ');
    assert_eq!(GLYPH_EMPTY, b'.');
    assert_eq!(GLYPH_PLAYER, b'@');
    assert_eq!(GLYPH_EMU, b'E');
    assert_eq!(GLYPH_GOLD, b'*');
    assert_eq!(GLYPH_WALL, b'#');
    assert_eq!(NEWLINE, b'\n');
    assert_eq!(Cell::Rock.glyph(), b' ');
    assert_eq!(Cell::Empty.glyph(), b'.');
    assert_eq!(Cell::Player.glyph(), b'@');
    assert_eq!(Cell::Emu(3).glyph(), b'E');
    assert_eq!(Cell::Gold(1).glyph(), b'*');
    assert_eq!(Cell::Wall.glyph(), b'#');
}

#[test]
fn player_is_found_anywhere_in_a_tile() {
    assert!(tile_has_player(&vec![Cell::Player, Cell::Empty]));
    assert!(tile_has_player(&vec![Cell::Emu(0), Cell::Gold(1), Cell::Player]));
    assert!(!tile_has_player(&vec![Cell::Emu(0), Cell::Gold(1)]));
    assert!(!tile_has_player(&vec![]));
}

#[test]
fn removing_the_player_keeps_the_rest_in_order() {
    let tile = vec![Cell::Player, Cell::Wall, Cell::Emu(2), Cell::Player, Cell::Gold(9)];
    assert_eq!(tile_without_player(&tile), vec![Cell::Wall, Cell::Emu(2), Cell::Gold(9)]);
    let tile = vec![Cell::Empty, Cell::Emu(1)];
    assert_eq!(tile_without_player(&tile), tile);
    assert_eq!(tile_without_player(&vec![Cell::Player]), vec![]);
}

#[test]
fn tile_at_is_refused_off_the_grid() {
    let game = from_loadfile(b"@..\n...", 3, 2).unwrap();
    let map = game.map();
    assert!(map.tile_at(2, 1).is_ok());
    assert_eq!(map.tile_at(3, 0), Err(OutOfBounds));
    assert_eq!(map.tile_at(0, 2), Err(OutOfBounds));
    assert_eq!(map.tile_at(3, 2), Err(OutOfBounds));
    assert_eq!(map.tile_at(usize::MAX, usize::MAX), Err(OutOfBounds));
}

#[test]
fn render_glyph_is_refused_off_the_grid() {
    let game = from_loadfile(b"@..\n...", 3, 2).unwrap();
    let map = game.map();
    assert_eq!(map.render_glyph(2, 1), Ok(b'.'));
    assert_eq!(map.render_glyph(3, 0), Err(OutOfBounds));
    assert_eq!(map.render_glyph(0, 2), Err(OutOfBounds));
    assert_eq!(map.render_glyph(usize::MAX, 0), Err(OutOfBounds));
}

#[test]
fn the_player_shows_over_what_it_stands_on() {
    let mut game = from_loadfile(b"@E", 2, 1).unwrap();
    assert_eq!(game.map().render_glyph(0, 0), Ok(b'@'));
    assert_eq!(game.map().render_glyph(1, 0), Ok(b'E'));
    game.move_player(emu_war::game::Dir::Right).unwrap();
    assert_eq!(game.map().render_glyph(0, 0), Ok(b'.'));
    assert_eq!(game.map().render_glyph(1, 0), Ok(b'@'));
}

#[test]
fn rows_are_parted_by_line_feeds() {
    let game = from_loadfile(b"@#*E .", 2, 3).unwrap();
    assert_eq!(game.map().render(), b"@#\n*E\n .".to_vec());
    let game = from_loadfile(b"@#*E .", 6, 1).unwrap();
    assert_eq!(game.map().render(), b"@#*E .".to_vec());
    let game = from_loadfile(b"@#*E .", 1, 6).unwrap();
    assert_eq!(game.map().render(), b"@\n#\n*\nE\n \n.".to_vec());
}

#[test]
fn grid_operations_change_one_tile() {
    let game = from_loadfile(b"@E\n*#", 2, 2).unwrap();
    let mut map = game.map().clone();
    map.remove_player(0, 0);
    assert_eq!(map.tile_at(0, 0).unwrap(), &vec![Cell::Empty]);
    assert_eq!(map.render(), b".E\n*#".to_vec());
    map.insert_player(1, 1);
    assert_eq!(map.tile_at(1, 1).unwrap(), &vec![Cell::Wall, Cell::Player]);
    assert_eq!(map.tile_at(1, 0).unwrap(), &vec![Cell::Emu(0)]);
    assert_eq!(map.tile_at(0, 1).unwrap(), &vec![Cell::Gold(42)]);
    assert_eq!(map.render(), b".E\n*@".to_vec());
    assert_eq!(game.map().render(), b"@E\n*#".to_vec());
}
