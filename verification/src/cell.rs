//! Occupants of a tile, and what a list of them shows.

use vstd::prelude::*;

verus! {

/// The character that shows rock: a space.
pub const GLYPH_ROCK: u8 = 32;

/// The character that shows open floor: `.`.
pub const GLYPH_EMPTY: u8 = 46;

/// The character that shows the player: `@`.
pub const GLYPH_PLAYER: u8 = 64;

/// The character that shows a hostile: `E`.
pub const GLYPH_EMU: u8 = 69;

/// The character that shows a pile of gold: `*`.
pub const GLYPH_GOLD: u8 = 42;

/// The character that shows a wall: `#`.
pub const GLYPH_WALL: u8 = 35;

/// One occupant of a tile.
///
/// A tile holds a list of these. Entities are not stored in the grid: the
/// player is the one record that the game owns, and a hostile is named by its
/// index in the game's list of hostiles.
#[derive(Clone, Copy, Debug, PartialEq, Eq, Structural)]
pub enum Cell {
    /// Decorative rock.
    Rock,
    /// Open floor.
    Empty,
    /// A pile of gold of the given amount.
    Gold(u8),
    /// The player stands here.
    Player,
    /// The hostile with this index stands here.
    Emu(usize),
    /// A wall.
    Wall,
}

/// The character that shows one occupant.
pub open spec fn glyph_of(c: Cell) -> u8 {
    match c {
        Cell::Rock => GLYPH_ROCK,
        Cell::Empty => GLYPH_EMPTY,
        Cell::Gold(_) => GLYPH_GOLD,
        Cell::Player => GLYPH_PLAYER,
        Cell::Emu(_) => GLYPH_EMU,
        Cell::Wall => GLYPH_WALL,
    }
}

impl Cell {
    /// Whether this occupant is the player.
    pub fn is_player(&self) -> (b: bool)
        ensures
            b == (*self == Cell::Player),
    {
        match self {
            Cell::Player => true,
            _ => false,
        }
    }

    /// The character that shows this occupant.
    pub fn glyph(&self) -> (g: u8)
        ensures
            g == glyph_of(*self),
    {
        match self {
            Cell::Rock => GLYPH_ROCK,
            Cell::Empty => GLYPH_EMPTY,
            Cell::Gold(_) => GLYPH_GOLD,
            Cell::Player => GLYPH_PLAYER,
            Cell::Emu(_) => GLYPH_EMU,
            Cell::Wall => GLYPH_WALL,
        }
    }
}

/// Whether an occupant is anything but the player.
pub open spec fn not_player(c: Cell) -> bool {
    c != Cell::Player
}

/// Whether a list of occupants holds the player.
pub open spec fn has_player(tile: Seq<Cell>) -> bool {
    tile.contains(Cell::Player)
}

/// The occupants of a list that are not the player, in the order they have
/// in the list.
pub open spec fn without_player(tile: Seq<Cell>) -> Seq<Cell> {
    tile.filter(|c: Cell| not_player(c))
}

/// Whether a list of occupants holds the player in exactly one place.
pub open spec fn has_one_player(tile: Seq<Cell>) -> bool {
    &&& has_player(tile)
    &&& forall|j: int, k: int|
        0 <= j < tile.len() && 0 <= k < tile.len() && tile[j] == Cell::Player && tile[k]
            == Cell::Player ==> j == k
}

/// The character that shows a tile: the player's where the player is among
/// the occupants, else that of the first occupant.
pub open spec fn tile_glyph(tile: Seq<Cell>) -> u8 {
    if has_player(tile) {
        GLYPH_PLAYER
    } else {
        glyph_of(tile[0])
    }
}

/// What `without_player` keeps and what it drops: the player is gone, every
/// other occupant is still there, and a list without the player is left as
/// it is.
pub proof fn lemma_without_player(tile: Seq<Cell>)
    ensures
        !has_player(without_player(tile)),
        without_player(tile).len() <= tile.len(),
        forall|j: int| 0 <= j < without_player(tile).len() ==> without_player(tile)[j] != Cell::Player,
        forall|c: Cell| c != Cell::Player ==> (without_player(tile).contains(c) <==> tile.contains(c)),
        !has_player(tile) ==> without_player(tile) == tile,
    decreases tile.len(),
{
    reveal(Seq::filter);
    if tile.len() > 0 {
        let front = tile.drop_last();
        lemma_without_player(front);
        let kept = without_player(front);
        let out = without_player(tile);
        assert(out == if not_player(tile.last()) { kept.push(tile.last()) } else { kept });
        assert forall|c: Cell| c != Cell::Player implies (out.contains(c) <==> tile.contains(c)) by {
            if out.contains(c) {
                let j = choose|j: int| 0 <= j < out.len() && out[j] == c;
                if j < kept.len() {
                    assert(kept[j] == c);
                    assert(front.contains(c));
                    let k = choose|k: int| 0 <= k < front.len() && front[k] == c;
                    assert(tile[k] == c);
                } else {
                    assert(tile[tile.len() - 1] == c);
                }
            }
            if tile.contains(c) {
                let k = choose|k: int| 0 <= k < tile.len() && tile[k] == c;
                if k < front.len() {
                    assert(front[k] == c);
                    assert(front.contains(c));
                    let j = choose|j: int| 0 <= j < kept.len() && kept[j] == c;
                    assert(out[j] == c);
                } else {
                    assert(out[out.len() - 1] == c);
                }
            }
        }
        if !has_player(tile) {
            assert(!has_player(front)) by {
                if has_player(front) {
                    let k = choose|k: int| 0 <= k < front.len() && front[k] == Cell::Player;
                    assert(tile[k] == Cell::Player);
                }
            }
            assert(tile[tile.len() - 1] != Cell::Player);
            assert(out =~= tile);
        }
    }
}

/// `without_player` of a list with one more occupant at its end.
pub proof fn lemma_without_player_push(tile: Seq<Cell>, c: Cell)
    ensures
        without_player(tile.push(c)) == if c == Cell::Player {
            without_player(tile)
        } else {
            without_player(tile).push(c)
        },
{
    tile.lemma_filter_push(c, |c: Cell| not_player(c));
}

/// Whether the player is among the occupants of a tile.
pub fn tile_has_player(tile: &Vec<Cell>) -> (b: bool)
    ensures
        b == has_player(tile@),
{
    let mut j: usize = 0;
    while j < tile.len()
        invariant
            j <= tile.len(),
            forall|k: int| 0 <= k < j ==> tile@[k] != Cell::Player,
        decreases tile.len() - j,
    {
        if tile[j].is_player() {
            return true;
        }
        j += 1;
    }
    false
}

/// The occupants of a tile that are not the player, in their order.
pub fn tile_without_player(tile: &Vec<Cell>) -> (rest: Vec<Cell>)
    ensures
        rest@ == without_player(tile@),
{
    let mut rest: Vec<Cell> = Vec::new();
    let mut j: usize = 0;
    proof {
        reveal(Seq::filter);
        assert(tile@.take(0) =~= Seq::<Cell>::empty());
    }
    while j < tile.len()
        invariant
            j <= tile.len(),
            rest@ == without_player(tile@.take(j as int)),
        decreases tile.len() - j,
    {
        let c = tile[j];
        proof {
            assert(tile@.take(j + 1) =~= tile@.take(j as int).push(c));
            lemma_without_player_push(tile@.take(j as int), c);
        }
        if !c.is_player() {
            rest.push(c);
        }
        j += 1;
    }
    proof {
        assert(tile@.take(tile.len() as int) =~= tile@);
    }
    rest
}

} // verus!
