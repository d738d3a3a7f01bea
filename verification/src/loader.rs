//! The loader: from the text of a map to a game.
//!
//! The text holds one character for each tile, row by row from the top.
//! Line feeds may stand anywhere in it and are skipped. The dimensions come
//! from the caller, and what follows the last tile is not read.

use crate::cell::{
    has_one_player, has_player, lemma_without_player, tile_glyph, without_player, Cell,
    GLYPH_EMPTY, GLYPH_EMU, GLYPH_GOLD, GLYPH_PLAYER, GLYPH_ROCK, GLYPH_WALL,
};
use crate::game::{Emu, Game, GameView, Player};
use crate::grid::{lemma_index_bounds, Grid, GridView, NEWLINE};
use vstd::prelude::*;

verus! {

/// Hit points of the player as it is loaded.
pub const PLAYER_HP: usize = 42;

/// Damage of the player as it is loaded.
pub const PLAYER_DAM: usize = 7;

/// Hit points of a hostile as it is loaded.
pub const EMU_HP: usize = 42;

/// Damage of a hostile as it is loaded.
pub const EMU_DAM: usize = 1;

/// Gold in a pile as it is loaded.
pub const GOLD_PILE: u8 = 42;

/// Why a text is not the map of a game.
#[derive(Clone, Copy, Debug, PartialEq, Eq, Structural)]
pub enum LoadError {
    /// The text places the player a second time.
    DuplicatePlayer,
    /// The text places the player nowhere.
    MissingPlayer,
    /// The tile with this number, counted row by row from 0, cannot be
    /// read: its character stands for nothing, or the text ends before it.
    MalformedLoadfile(usize),
}

/// Whether a character of the text stands for a tile: all but the line
/// feed do.
pub open spec fn is_payload(b: u8) -> bool {
    b != NEWLINE
}

/// The characters of a text that stand for tiles, in their order.
pub open spec fn payload(text: Seq<u8>) -> Seq<u8> {
    text.filter(|b: u8| is_payload(b))
}

/// The characters of a text that the loader reads for a grid of `cells`
/// tiles: the first `cells` of its payload, or all of it where it is
/// shorter.
pub open spec fn layout(text: Seq<u8>, cells: nat) -> Seq<u8> {
    let p = payload(text);
    if p.len() <= cells {
        p
    } else {
        p.take(cells as int)
    }
}

/// Whether a character describes a tile.
pub open spec fn recognized(b: u8) -> bool {
    b == GLYPH_ROCK || b == GLYPH_EMPTY || b == GLYPH_PLAYER || b == GLYPH_EMU || b == GLYPH_GOLD
        || b == GLYPH_WALL
}

/// Whether the loader stops at character `k` of a layout: it describes no
/// tile, or it places the player, which an earlier character has placed.
pub open spec fn fault_at(l: Seq<u8>, k: int) -> bool {
    !recognized(l[k]) || (l[k] == GLYPH_PLAYER && l.take(k).contains(GLYPH_PLAYER))
}

/// Whether the loader stops at none of the first `k` characters.
pub open spec fn no_fault_before(l: Seq<u8>, k: int) -> bool {
    forall|j: int| 0 <= j < k ==> !#[trigger] fault_at(l, j)
}

/// Whether the loader stops at no character of a layout.
pub open spec fn clean(l: Seq<u8>) -> bool {
    no_fault_before(l, l.len() as int)
}

/// The first character of a layout at which the loader stops.
pub open spec fn first_fault(l: Seq<u8>) -> int {
    choose|k: int| 0 <= k < l.len() && fault_at(l, k) && no_fault_before(l, k)
}

/// Whether a character places a hostile.
pub open spec fn is_emu(b: u8) -> bool {
    b == GLYPH_EMU
}

/// The number of hostiles that the first `k` characters of a layout place.
pub open spec fn hostiles_before(l: Seq<u8>, k: int) -> nat {
    l.take(k).filter(|b: u8| is_emu(b)).len()
}

/// The occupants of tile `k` as a clean layout describes them.
pub open spec fn tile_of(l: Seq<u8>, k: int) -> Seq<Cell> {
    let b = l[k];
    if b == GLYPH_ROCK {
        seq![Cell::Rock]
    } else if b == GLYPH_EMPTY {
        seq![Cell::Empty]
    } else if b == GLYPH_PLAYER {
        seq![Cell::Player, Cell::Empty]
    } else if b == GLYPH_EMU {
        seq![Cell::Emu(hostiles_before(l, k) as usize)]
    } else if b == GLYPH_GOLD {
        seq![Cell::Gold(GOLD_PILE)]
    } else {
        seq![Cell::Wall]
    }
}

/// The character of a layout that places the player.
pub open spec fn player_cell(l: Seq<u8>) -> int {
    choose|k: int| 0 <= k < l.len() && l[k] == GLYPH_PLAYER
}

/// The game that a clean layout with a player describes, for a grid of the
/// given dimensions: tile `k` is `tile_of(l, k)`, the player stands on the
/// tile whose character places it, and there is one hostile for each
/// character that places one, numbered in the order of those characters.
pub open spec fn loaded(l: Seq<u8>, width: nat, height: nat) -> GameView {
    let p = player_cell(l);
    GameView {
        grid: GridView { width, height, tiles: Seq::new(l.len(), |k: int| tile_of(l, k)) },
        player: Player {
            pos: ((p % width as int) as usize, (p / width as int) as usize),
            hp: PLAYER_HP,
            dam: PLAYER_DAM,
            gold: 0,
        },
        emus: Seq::new(hostiles_before(l, l.len() as int), |j: int| Emu { hp: EMU_HP, dam: EMU_DAM }),
    }
}

/// What loading a text gives, for a grid of the given dimensions.
///
/// The loader reads `layout(text, width * height)` from its start and
/// stops at the first fault: `MalformedLoadfile` with the number of the
/// tile where the character describes no tile, `DuplicatePlayer` where it
/// places the player again. Where there is no fault: `MissingPlayer` if no
/// character places the player; `MalformedLoadfile` with the number of
/// the first tile that is missing if the text ends before the last tile;
/// else the game that the layout describes.
pub open spec fn load_outcome(text: Seq<u8>, width: nat, height: nat) -> Result<
    GameView,
    LoadError,
> {
    let l = layout(text, width * height);
    if !clean(l) {
        let k = first_fault(l);
        if recognized(l[k]) {
            Err(LoadError::DuplicatePlayer)
        } else {
            Err(LoadError::MalformedLoadfile(k as usize))
        }
    } else if !l.contains(GLYPH_PLAYER) {
        Err(LoadError::MissingPlayer)
    } else if l.len() < width * height {
        Err(LoadError::MalformedLoadfile(l.len() as usize))
    } else {
        Ok(loaded(l, width, height))
    }
}

/// Loads a game from the text of a map, for a grid of the given dimensions.
///
/// Each character of the text but the line feed stands for one tile: a
/// space for rock, `.` for floor, `@` for the player on floor, `E` for a
/// hostile, `*` for a pile of gold, `#` for a wall. The result is
/// `load_outcome` of the text: a well-formed game, or the first reason why
/// the text describes none.
pub fn from_loadfile(s: &[u8], width: usize, height: usize) -> (r: Result<Game, LoadError>)
    ensures
        match r {
            Ok(game) => game.wf() && load_outcome(s@, width as nat, height as nat) == Ok::<
                GameView,
                LoadError,
            >(game@),
            Err(e) => load_outcome(s@, width as nat, height as nat) == Err::<GameView, LoadError>(e),
        },
{
    let ghost cells = width as nat * height as nat;
    let ghost l = layout(s@, cells);
    if width == 0 || height == 0 {
        proof {
            assert(cells == 0) by (nonlinear_arith)
                requires
                    cells == width as nat * height as nat,
                    width == 0 || height == 0,
            ;
            assert(l.len() == 0);
        }
        return Err(LoadError::MissingPlayer);
    }
    let mut data: Vec<Vec<Cell>> = Vec::new();
    let mut emus: Vec<Emu> = Vec::new();
    let mut player: Option<Player> = None;
    let ghost mut found: int = 0;
    let mut x: usize = 0;
    let mut y: usize = 0;
    let mut i: usize = 0;
    proof {
        reveal(Seq::filter);
        assert(s@.take(0) =~= Seq::<u8>::empty());
        lemma_layout_prefix(s@, 0, cells);
        lemma_hostiles_none(l);
        assert(0 * width == 0) by (nonlinear_arith);
    }
    while i < s.len() && y < height
        invariant
            0 < width,
            0 < height,
            cells == width as nat * height as nat,
            l == layout(s@, cells),
            i <= s.len(),
            data.len() == payload(s@.take(i as int)).len(),
            data.len() == y * width + x,
            data.len() <= l.len() <= cells,
            (y < height && x < width) || (y == height && x == 0),
            no_fault_before(l, data.len() as int),
            forall|k: int| 0 <= k < data.len() ==> (#[trigger] data@[k])@ == tile_of(l, k),
            emus.len() == hostiles_before(l, data.len() as int),
            forall|j: int| 0 <= j < emus.len() ==> #[trigger] emus@[j] == (Emu { hp: EMU_HP, dam: EMU_DAM }),
            player is Some <==> l.take(data.len() as int).contains(GLYPH_PLAYER),
            player is Some ==> 0 <= found < data.len() && l[found] == GLYPH_PLAYER && player == Some(
                Player {
                    pos: ((found % width as int) as usize, (found / width as int) as usize),
                    hp: PLAYER_HP,
                    dam: PLAYER_DAM,
                    gold: 0,
                },
            ),
        decreases s.len() - i,
    {
        let b = s[i];
        let ghost k = data.len() as int;
        proof {
            lemma_payload_step(s@, i as int);
        }
        if b != NEWLINE {
            proof {
                lemma_index_bounds(width as nat, height as nat, x as int, y as int);
                lemma_layout_prefix(s@, i + 1, cells);
                assert(l.take(k + 1)[k] == b);
                assert(l[k] == b);
                lemma_hostiles_step(l, k);
                lemma_hostiles_monotone(l, k, k);
                vstd::arithmetic::div_mod::lemma_fundamental_div_mod_converse(
                    k,
                    width as int,
                    y as int,
                    x as int,
                );
            }
            let mut tile: Vec<Cell> = Vec::new();
            if b == GLYPH_ROCK {
                tile.push(Cell::Rock);
            } else if b == GLYPH_EMPTY {
                tile.push(Cell::Empty);
            } else if b == GLYPH_PLAYER {
                if player.is_some() {
                    proof {
                        lemma_first_fault(l, k);
                    }
                    return Err(LoadError::DuplicatePlayer);
                }
                player = Some(Player { pos: (x, y), hp: PLAYER_HP, dam: PLAYER_DAM, gold: 0 });
                proof {
                    found = k;
                }
                tile.push(Cell::Player);
                tile.push(Cell::Empty);
            } else if b == GLYPH_EMU {
                tile.push(Cell::Emu(emus.len()));
                emus.push(Emu { hp: EMU_HP, dam: EMU_DAM });
            } else if b == GLYPH_GOLD {
                tile.push(Cell::Gold(GOLD_PILE));
            } else if b == GLYPH_WALL {
                tile.push(Cell::Wall);
            } else {
                proof {
                    lemma_first_fault(l, k);
                }
                return Err(LoadError::MalformedLoadfile(data.len()));
            }
            proof {
                assert(tile@ =~= tile_of(l, k));
                assert(!fault_at(l, k));
                let before = l.take(k);
                let after = l.take(k + 1);
                assert(after =~= before.push(b));
                assert(after.contains(GLYPH_PLAYER) <==> before.contains(GLYPH_PLAYER) || b
                    == GLYPH_PLAYER) by {
                    if before.contains(GLYPH_PLAYER) {
                        let j = choose|j: int| 0 <= j < before.len() && before[j] == GLYPH_PLAYER;
                        assert(after[j] == GLYPH_PLAYER);
                    }
                    if b == GLYPH_PLAYER {
                        assert(after[k] == GLYPH_PLAYER);
                    }
                    if after.contains(GLYPH_PLAYER) {
                        let j = choose|j: int| 0 <= j < after.len() && after[j] == GLYPH_PLAYER;
                        if j < k {
                            assert(before[j] == GLYPH_PLAYER);
                        }
                    }
                }
            }
            data.push(tile);
            x += 1;
            if x == width {
                x = 0;
                y += 1;
            }
        }
        i += 1;
    }
    proof {
        lemma_layout_prefix(s@, i as int, cells);
        if y == height {
            assert(height * width == width as nat * height as nat) by (nonlinear_arith);
        } else {
            lemma_index_bounds(width as nat, height as nat, x as int, y as int);
        }
        assert(l.take(l.len() as int) =~= l);
    }
    match player {
        None => Err(LoadError::MissingPlayer),
        Some(player) => {
            if y < height {
                return Err(LoadError::MalformedLoadfile(data.len()));
            }
            proof {
                lemma_one_player(l, found, player_cell(l));
                lemma_loaded_wf(l, width as nat, height as nat);
            }
            let map = Grid::from_tiles(width, height, data);
            let game = Game::assemble(map, player, emus);
            proof {
                let want = loaded(l, width as nat, height as nat);
                assert(game@.grid.tiles =~= want.grid.tiles);
                assert(game@.emus =~= want.emus);
            }
            Ok(game)
        },
    }
}

/// The payload of a text grows with the text, a character at a time.
proof fn lemma_payload_step(text: Seq<u8>, i: int)
    requires
        0 <= i < text.len(),
    ensures
        payload(text.take(i + 1)) == if is_payload(text[i]) {
            payload(text.take(i)).push(text[i])
        } else {
            payload(text.take(i))
        },
{
    assert(text.take(i + 1) =~= text.take(i).push(text[i]));
    text.take(i).lemma_filter_push(text[i], |b: u8| is_payload(b));
}

/// The payload of the start of a text, where it is not longer than the
/// grid has tiles, is the start of the layout.
proof fn lemma_layout_prefix(text: Seq<u8>, i: int, cells: nat)
    requires
        0 <= i <= text.len(),
        payload(text.take(i)).len() <= cells,
    ensures
        payload(text.take(i)).len() <= layout(text, cells).len() <= cells,
        layout(text, cells).take(payload(text.take(i)).len() as int) == payload(text.take(i)),
        i == text.len() ==> layout(text, cells) == payload(text.take(i)),
{
    let head = text.take(i);
    let tail = text.skip(i);
    assert(text =~= head + tail);
    Seq::filter_distributes_over_add(head, tail, |b: u8| is_payload(b));
    assert(payload(text) == payload(head) + payload(tail));
    assert(layout(text, cells).take(payload(head).len() as int) =~= payload(head));
    if i == text.len() {
        assert(head =~= text);
    }
}

/// The count of hostiles grows by one at each character that places one.
proof fn lemma_hostiles_step(l: Seq<u8>, k: int)
    requires
        0 <= k < l.len(),
    ensures
        hostiles_before(l, k + 1) == hostiles_before(l, k) + if is_emu(l[k]) {
            1nat
        } else {
            0nat
        },
{
    assert(l.take(k + 1) =~= l.take(k).push(l[k]));
    l.take(k).lemma_filter_push(l[k], |b: u8| is_emu(b));
}

/// No hostile is placed before the first character.
proof fn lemma_hostiles_none(l: Seq<u8>)
    ensures
        hostiles_before(l, 0) == 0,
{
    reveal(Seq::filter);
    assert(l.take(0) =~= Seq::<u8>::empty());
}

/// The count of hostiles does not fall, and is at most the number of
/// characters read.
proof fn lemma_hostiles_monotone(l: Seq<u8>, j: int, k: int)
    requires
        0 <= j <= k <= l.len(),
    ensures
        hostiles_before(l, j) <= hostiles_before(l, k) <= k,
    decreases k,
{
    if k == 0 {
        lemma_hostiles_none(l);
    } else {
        lemma_hostiles_step(l, k - 1);
        if j < k {
            lemma_hostiles_monotone(l, j, k - 1);
        } else {
            lemma_hostiles_monotone(l, k - 1, k - 1);
        }
    }
}

/// Every number below the count of hostiles is the number of a hostile
/// that an earlier character places.
proof fn lemma_hostile_found(l: Seq<u8>, k: int, id: int) -> (i: int)
    requires
        0 <= k <= l.len(),
        0 <= id < hostiles_before(l, k),
    ensures
        0 <= i < k,
        is_emu(l[i]),
        hostiles_before(l, i) == id,
    decreases k,
{
    if k == 0 {
        lemma_hostiles_none(l);
        0
    } else {
        lemma_hostiles_step(l, k - 1);
        if id < hostiles_before(l, k - 1) {
            lemma_hostile_found(l, k - 1, id)
        } else {
            k - 1
        }
    }
}

/// A clean layout places the player at most once, so `player_cell` is the
/// one character that places it.
pub proof fn lemma_one_player(l: Seq<u8>, a: int, b: int)
    requires
        clean(l),
        0 <= a < l.len(),
        0 <= b < l.len(),
        l[a] == GLYPH_PLAYER,
        l[b] == GLYPH_PLAYER,
    ensures
        a == b,
{
    if a < b {
        assert(l.take(b)[a] == GLYPH_PLAYER);
        assert(fault_at(l, b));
    } else if b < a {
        assert(l.take(a)[b] == GLYPH_PLAYER);
        assert(fault_at(l, a));
    }
}

/// Before a fault, or at it, stands a fault with none before it.
proof fn lemma_least_fault(l: Seq<u8>, b: int) -> (f: int)
    requires
        0 <= b < l.len(),
        fault_at(l, b),
    ensures
        0 <= f <= b,
        fault_at(l, f),
        no_fault_before(l, f),
    decreases b,
{
    if no_fault_before(l, b) {
        b
    } else {
        let j = choose|j: int| 0 <= j < b && fault_at(l, j);
        lemma_least_fault(l, j)
    }
}

/// A fault with none before it is the first fault.
pub proof fn lemma_first_fault(l: Seq<u8>, k: int)
    requires
        0 <= k < l.len(),
        fault_at(l, k),
        no_fault_before(l, k),
    ensures
        !clean(l),
        first_fault(l) == k,
{
    let f = first_fault(l);
    assert(0 <= f < l.len() && fault_at(l, f) && no_fault_before(l, f));
}

/// What a tile of a clean layout holds: something that is not the player;
/// the player where its character places it and nowhere else, and then
/// once; and a reference to a hostile only where its character places one,
/// and then to the hostile with the number of that character among those
/// that place one.
proof fn lemma_tile_of(l: Seq<u8>, k: int)
    requires
        clean(l),
        0 <= k < l.len(),
    ensures
        without_player(tile_of(l, k)).len() > 0,
        has_player(tile_of(l, k)) <==> l[k] == GLYPH_PLAYER,
        has_player(tile_of(l, k)) ==> has_one_player(tile_of(l, k)),
        tile_glyph(tile_of(l, k)) == l[k],
        l.len() <= usize::MAX ==> forall|id: usize| #[trigger]
            tile_of(l, k).contains(Cell::Emu(id)) <==> is_emu(l[k]) && id == hostiles_before(l, k),
{
    let tile = tile_of(l, k);
    assert(!fault_at(l, k));
    lemma_hostiles_monotone(l, k, k);
    lemma_without_player(tile);
    let base = if l[k] == GLYPH_PLAYER {
        tile[1]
    } else {
        tile[0]
    };
    assert(base != Cell::Player);
    assert(tile.contains(base));
    assert(without_player(tile).contains(base));
    if l[k] == GLYPH_PLAYER {
        assert(tile[0] == Cell::Player);
    }
    if is_emu(l[k]) {
        assert(tile[0] == Cell::Emu(hostiles_before(l, k) as usize));
    }
}

/// The game that a clean layout with a player describes is well formed,
/// where the layout has a character for each tile.
pub proof fn lemma_loaded_wf(l: Seq<u8>, width: nat, height: nat)
    requires
        clean(l),
        l.contains(GLYPH_PLAYER),
        l.len() == width * height,
        l.len() <= usize::MAX,
    ensures
        loaded(l, width, height).wf(),
{
    let g = loaded(l, width, height);
    let p = player_cell(l);
    let w = width as int;
    let h = height as int;
    let n = l.len() as int;
    let x = p % w;
    let y = p / w;
    assert(0 < w <= n && 0 < h <= n) by (nonlinear_arith)
        requires
            0 <= w,
            0 <= h,
            0 < n,
            n == w * h,
    ;
    vstd::arithmetic::div_mod::lemma_fundamental_div_mod(p, w);
    assert(0 <= x < w && 0 <= y < h && y * w + x == p) by (nonlinear_arith)
        requires
            0 <= p < w * h,
            0 < w,
            x == p % w,
            y == p / w,
            p == w * (p / w) + (p % w),
    ;
    assert(g.player_index() == p);
    assert forall|i: int| 0 <= i < g.grid.tiles.len() implies without_player(
        #[trigger] g.grid.tiles[i],
    ).len() > 0 && (has_player(g.grid.tiles[i]) <==> i == p) by {
        lemma_tile_of(l, i);
        if l[i] == GLYPH_PLAYER {
            lemma_one_player(l, i, p);
        }
    }
    lemma_tile_of(l, p);
    assert forall|i: int, id: usize| #[trigger] g.refers(i, id) implies id < g.emus.len() by {
        lemma_tile_of(l, i);
        lemma_hostiles_step(l, i);
        lemma_hostiles_monotone(l, i + 1, n);
    }
    assert forall|id: usize| id < g.emus.len() implies #[trigger] g.placed(id) by {
        let i = lemma_hostile_found(l, n, id as int);
        lemma_tile_of(l, i);
        assert(g.refers(i, id));
    }
    assert forall|i: int, k: int, id: usize| #[trigger]
        g.refers(i, id) && #[trigger] g.refers(k, id) implies i == k by {
        lemma_tile_of(l, i);
        lemma_tile_of(l, k);
        if i < k {
            lemma_hostiles_step(l, i);
            lemma_hostiles_monotone(l, i + 1, k);
        } else if k < i {
            lemma_hostiles_step(l, k);
            lemma_hostiles_monotone(l, k + 1, i);
        }
    }
}

/// A text without line feeds is its own payload.
proof fn lemma_payload_all(text: Seq<u8>)
    requires
        forall|i: int| 0 <= i < text.len() ==> is_payload(#[trigger] text[i]),
    ensures
        payload(text) == text,
    decreases text.len(),
{
    reveal(Seq::filter);
    if text.len() > 0 {
        lemma_payload_all(text.drop_last());
        assert(text =~= text.drop_last().push(text.last()));
    }
}

/// Row `y` of a grid, as it is shown, is its part of the characters that
/// show the tiles, and holds no line feed.
proof fn lemma_line(g: GridView, y: int)
    requires
        g.tiles.len() == g.width * g.height,
        0 <= y < g.height,
    ensures
        0 <= y * g.width <= y * g.width + g.width <= g.tiles.len(),
        g.line(y) == g.glyphs().subrange(y * g.width, y * g.width + g.width),
        payload(g.line(y)) == g.line(y),
{
    let w = g.width as int;
    assert(0 <= y * w && y * w + w <= g.height * w && g.height * w == w * g.height)
        by (nonlinear_arith)
        requires
            0 <= y < g.height,
            0 <= w,
    ;
    assert(g.line(y) =~= g.glyphs().subrange(y * w, y * w + w));
    lemma_payload_all(g.line(y));
}

/// The first rows of a rendering, with the line feeds taken out, are the
/// characters that show the tiles of those rows.
proof fn lemma_lines_payload(g: GridView, rows: nat)
    requires
        g.tiles.len() == g.width * g.height,
        rows <= g.height,
    ensures
        0 <= rows * g.width <= g.tiles.len(),
        payload(g.lines(rows)) == g.glyphs().take((rows * g.width) as int),
    decreases rows,
{
    let w = g.width as int;
    let pred = |b: u8| is_payload(b);
    if rows == 0 {
        reveal(Seq::filter);
        assert(0 * w == 0) by (nonlinear_arith);
        assert(g.glyphs().take(0) =~= Seq::<u8>::empty());
    } else {
        let y = rows - 1;
        lemma_line(g, y);
        assert(rows * w == y * w + w) by (nonlinear_arith)
            requires
                rows == y + 1,
        ;
        if rows == 1 {
            assert(0 * w == 0) by (nonlinear_arith);
            assert(g.glyphs().subrange(0, w) =~= g.glyphs().take(w));
        } else {
            lemma_lines_payload(g, y as nat);
            let head = g.lines(y as nat);
            head.lemma_filter_push(NEWLINE, pred);
            Seq::filter_distributes_over_add(head.push(NEWLINE), g.line(y), pred);
            assert(g.glyphs().take(y * w) + g.glyphs().subrange(y * w, y * w + w)
                =~= g.glyphs().take(rows * w));
        }
    }
}

/// A rendering with its line feeds taken out is the characters that show
/// the tiles, row by row.
pub proof fn lemma_rendering_payload(g: GridView)
    requires
        g.tiles.len() == g.width * g.height,
    ensures
        payload(g.rendering()) == g.glyphs(),
{
    lemma_lines_payload(g, g.height);
    assert(g.height * g.width == g.width * g.height) by (nonlinear_arith);
    assert(g.glyphs().take(g.glyphs().len() as int) =~= g.glyphs());
}

/// Loading a text and rendering the grid gives the text back.
///
/// Where a text loads, the characters that show the tiles of the game are
/// the layout that was read, tile for tile; the rendering, with the line
/// feeds between its rows taken out, is that layout, and each of its rows
/// is the part of the layout that describes the row; and where the text
/// has no line feed and as many characters as the grid has tiles, the
/// characters that show the tiles are the text itself.
pub proof fn lemma_load_render(text: Seq<u8>, width: nat, height: nat)
    ensures
        load_outcome(text, width, height) matches Ok(g) ==> {
            let l = layout(text, width * height);
            &&& g.grid.glyphs() == l
            &&& payload(g.grid.rendering()) == l
            &&& forall|x: int, y: int|
                g.grid.in_bounds(x, y) ==> tile_glyph(#[trigger] g.grid.tile(x, y)) == l[y * width
                    + x]
            &&& forall|y: int|
                0 <= y < height ==> #[trigger] g.grid.line(y) == l.subrange(
                    y * width,
                    y * width + width,
                )
            &&& text.len() == width * height && (forall|i: int|
                0 <= i < text.len() ==> is_payload(#[trigger] text[i])) ==> g.grid.glyphs() == text
        },
{
    let l = layout(text, width * height);
    if let Ok(g) = load_outcome(text, width, height) {
        assert forall|k: int| 0 <= k < l.len() implies tile_glyph(#[trigger] g.grid.tiles[k])
            == l[k] by {
            lemma_tile_of(l, k);
        }
        assert(g.grid.glyphs() =~= l);
        lemma_rendering_payload(g.grid);
        assert forall|x: int, y: int| g.grid.in_bounds(x, y) implies tile_glyph(
            #[trigger] g.grid.tile(x, y),
        ) == l[y * width + x] by {
            lemma_index_bounds(width, height, x, y);
        }
        assert forall|y: int| 0 <= y < height implies #[trigger] g.grid.line(y) == l.subrange(
            y * width,
            y * width + width,
        ) by {
            assert forall|x: int| 0 <= x < width implies g.grid.line(y)[x] == l[y * width + x] by {
                lemma_index_bounds(width, height, x, y);
                assert(g.grid.in_bounds(x, y));
                assert(g.grid.line(y)[x] == tile_glyph(g.grid.tile(x, y)));
            }
            if width > 0 {
                lemma_index_bounds(width, height, width - 1, y);
            } else {
                assert(y * 0 == 0) by (nonlinear_arith);
            }
            assert(g.grid.line(y) =~= l.subrange(y * width, y * width + width));
        }
        if text.len() == width * height && (forall|i: int|
            0 <= i < text.len() ==> is_payload(#[trigger] text[i])) {
            lemma_payload_all(text);
        }
    }
}

/// A text that places the player twice does not load: where two
/// characters of the layout place the player, and every character before
/// the second of them describes a tile, loading fails with
/// `DuplicatePlayer`.
pub proof fn lemma_two_players(text: Seq<u8>, width: nat, height: nat, a: int, b: int)
    requires
        0 <= a < b < layout(text, width * height).len(),
        layout(text, width * height)[a] == GLYPH_PLAYER,
        layout(text, width * height)[b] == GLYPH_PLAYER,
        forall|k: int| 0 <= k < b ==> recognized(#[trigger] layout(text, width * height)[k]),
    ensures
        load_outcome(text, width, height) == Err::<GameView, LoadError>(LoadError::DuplicatePlayer),
{
    let l = layout(text, width * height);
    assert(l.take(b)[a] == GLYPH_PLAYER);
    assert(fault_at(l, b));
    let f = lemma_least_fault(l, b);
    lemma_first_fault(l, f);
}

/// A text that places the player nowhere does not load: where every
/// character of the layout describes a tile and none places the player,
/// loading fails with `MissingPlayer`.
pub proof fn lemma_no_player(text: Seq<u8>, width: nat, height: nat)
    requires
        forall|k: int|
            0 <= k < layout(text, width * height).len() ==> recognized(
                #[trigger] layout(text, width * height)[k],
            ) && layout(text, width * height)[k] != GLYPH_PLAYER,
    ensures
        load_outcome(text, width, height) == Err::<GameView, LoadError>(LoadError::MissingPlayer),
{
    let l = layout(text, width * height);
    assert forall|k: int| 0 <= k < l.len() implies !#[trigger] fault_at(l, k) by {
        assert(recognized(l[k]) && l[k] != GLYPH_PLAYER);
    }
}

} // verus!
