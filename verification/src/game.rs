//! The game: the grid, the player and the hostiles, and the one transition
//! that changes them, a step of the player.

use crate::cell::{
    has_one_player, has_player, lemma_without_player, lemma_without_player_push, without_player,
    Cell,
};
use crate::grid::{lemma_index_bounds, Grid, GridView, OutOfBounds};
use vstd::prelude::*;

verus! {

/// The player: where it stands, and what it has.
#[derive(Clone, Copy, Debug, PartialEq, Eq)]
pub struct Player {
    /// The coordinates `(x, y)` of the tile that the player stands on.
    pub pos: (usize, usize),
    /// Hit points.
    pub hp: usize,
    /// Damage dealt by a blow.
    pub dam: usize,
    /// Gold collected.
    pub gold: usize,
}

/// A hostile. It stays on the tile on which it was loaded.
#[derive(Clone, Copy, Debug, PartialEq, Eq, Structural)]
pub struct Emu {
    /// Hit points.
    pub hp: usize,
    /// Damage dealt by a blow.
    pub dam: usize,
}

/// The four directions of a step. `Left` and `Right` change `x`, `Up` and
/// `Down` change `y`, each by one. The two of a pair undo each other.
///
/// The names of the second pair follow the `y` axis, not the rendering,
/// which begins with the row `y == 0`: a step `Up` goes to the row with the
/// next larger `y`.
#[derive(Clone, Copy, Debug, PartialEq, Eq, Structural)]
pub enum Dir {
    /// Towards smaller `x`.
    Left,
    /// Towards larger `x`.
    Right,
    /// Towards larger `y`.
    Up,
    /// Towards smaller `y`.
    Down,
}

/// The change of `(x, y)` that a step in a direction makes.
pub open spec fn offset(dir: Dir) -> (int, int) {
    match dir {
        Dir::Left => (-1, 0),
        Dir::Right => (1, 0),
        Dir::Up => (0, 1),
        Dir::Down => (0, -1),
    }
}

/// The game as a mathematical value.
pub struct GameView {
    /// The grid.
    pub grid: GridView,
    /// The player's record.
    pub player: Player,
    /// The hostiles' records: `Cell::Emu(id)` refers to `emus[id]`.
    pub emus: Seq<Emu>,
}

impl GameView {
    /// Where the tile that the player's record names stands among the tiles.
    pub open spec fn player_index(self) -> int {
        self.grid.index(self.player.pos.0 as int, self.player.pos.1 as int)
    }

    /// Whether tile `i` holds a reference to hostile `id`.
    pub open spec fn refers(self, i: int, id: usize) -> bool {
        0 <= i < self.grid.tiles.len() && self.grid.tiles[i].contains(Cell::Emu(id))
    }

    /// Whether some tile holds a reference to hostile `id`.
    pub open spec fn placed(self, id: usize) -> bool {
        exists|i: int| self.refers(i, id)
    }

    /// The grid and the records agree:
    /// - the grid is well formed;
    /// - the player's recorded position is a tile of the grid, that tile
    ///   holds the player once, and no other tile holds it;
    /// - every reference to a hostile names a hostile of the list, and
    ///   every hostile of the list is referred to by exactly one tile.
    pub open spec fn wf(self) -> bool {
        &&& self.grid.wf()
        &&& self.grid.in_bounds(self.player.pos.0 as int, self.player.pos.1 as int)
        &&& forall|i: int|
            0 <= i < self.grid.tiles.len() ==> (has_player(#[trigger] self.grid.tiles[i]) <==> i
                == self.player_index())
        &&& has_one_player(self.grid.tiles[self.player_index()])
        &&& forall|i: int, id: usize| #[trigger] self.refers(i, id) ==> id < self.emus.len()
        &&& forall|id: usize| id < self.emus.len() ==> #[trigger] self.placed(id)
        &&& forall|i: int, k: int, id: usize|
            #[trigger] self.refers(i, id) && #[trigger] self.refers(k, id) ==> i == k
    }

    /// The coordinates one step from the player in a direction. They may
    /// lie outside the grid.
    pub open spec fn target(self, dir: Dir) -> (int, int) {
        (self.player.pos.0 + offset(dir).0, self.player.pos.1 + offset(dir).1)
    }

    /// Whether a step in a direction stays on the grid.
    pub open spec fn can_move(self, dir: Dir) -> bool {
        self.grid.in_bounds(self.target(dir).0, self.target(dir).1)
    }

    /// The game after a step that stays on the grid: the player has left
    /// the tile it stood on, stands at the end of the occupants of the
    /// tile it went to, and its record names that tile.
    pub open spec fn moved(self, dir: Dir) -> GameView {
        let (x, y) = self.target(dir);
        GameView {
            grid: self.grid.remove_player(
                self.player.pos.0 as int,
                self.player.pos.1 as int,
            ).insert_player(x, y),
            player: Player { pos: (x as usize, y as usize), ..self.player },
            emus: self.emus,
        }
    }

    /// The game after a request for a step: moved where the step stays on
    /// the grid, unchanged where it does not.
    pub open spec fn step(self, dir: Dir) -> GameView {
        if self.can_move(dir) {
            self.moved(dir)
        } else {
            self
        }
    }

    /// The game after a sequence of requests for a step, in their order.
    pub open spec fn run(self, dirs: Seq<Dir>) -> GameView
        decreases dirs.len(),
    {
        if dirs.len() == 0 {
            self
        } else {
            self.run(dirs.drop_last()).step(dirs.last())
        }
    }
}

/// The game: the grid, the player's record and the hostiles' records.
#[derive(Clone, Debug, PartialEq, Eq)]
pub struct Game {
    map: Grid,
    player: Player,
    emus: Vec<Emu>,
}

impl View for Game {
    type V = GameView;

    closed spec fn view(&self) -> GameView {
        GameView { grid: self.map@, player: self.player, emus: self.emus@ }
    }
}

impl Game {
    /// Whether the game is well formed: see `GameView::wf`.
    pub open spec fn wf(&self) -> bool {
        self@.wf()
    }

    /// A game from its parts.
    pub(crate) fn assemble(map: Grid, player: Player, emus: Vec<Emu>) -> (game: Game)
        ensures
            game@ == (GameView { grid: map@, player: player, emus: emus@ }),
    {
        Game { map, player, emus }
    }

    /// The grid, to read.
    pub fn map(&self) -> (map: &Grid)
        ensures
            map@ == self@.grid,
    {
        &self.map
    }

    /// The player's record.
    pub fn player(&self) -> (player: &Player)
        ensures
            *player == self@.player,
    {
        &self.player
    }

    /// The hostiles' records. A reference `Cell::Emu(id)` in the grid names
    /// the record at index `id`.
    pub fn hostiles(&self) -> (emus: &Vec<Emu>)
        ensures
            emus@ == self@.emus,
    {
        &self.emus
    }

    /// Moves the player one step, if the step stays on the grid.
    ///
    /// Then the player leaves the tile it stood on, whose other occupants
    /// stay as they are, and is added after the occupants of the tile it
    /// goes to; its record names that tile. A step that would leave the
    /// grid on any side is refused with `OutOfBounds`, and nothing changes.
    pub fn move_player(&mut self, dir: Dir) -> (r: Result<(), OutOfBounds>)
        requires
            old(self).wf(),
        ensures
            final(self).wf(),
            r is Ok <==> old(self)@.can_move(dir),
            r is Ok ==> final(self)@ == old(self)@.moved(dir),
            r is Err ==> *final(self) == *old(self),
            final(self)@ == old(self)@.step(dir),
    {
        let (ox, oy) = self.player.pos;
        let width = self.map.width();
        let height = self.map.height();
        let (x, y) = match dir {
            Dir::Left => {
                if ox == 0 {
                    return Err(OutOfBounds);
                }
                (ox - 1, oy)
            },
            Dir::Right => {
                if ox + 1 >= width {
                    return Err(OutOfBounds);
                }
                (ox + 1, oy)
            },
            Dir::Up => {
                if oy + 1 >= height {
                    return Err(OutOfBounds);
                }
                (ox, oy + 1)
            },
            Dir::Down => {
                if oy == 0 {
                    return Err(OutOfBounds);
                }
                (ox, oy - 1)
            },
        };
        proof {
            lemma_moved_wf(self@, dir);
        }
        self.map.remove_player(ox, oy);
        self.player.pos = (x, y);
        self.map.insert_player(x, y);
        Ok(())
    }
}

/// A step goes to another tile than the one it starts from.
proof fn lemma_target_differs(g: GameView, dir: Dir)
    requires
        g.wf(),
        g.can_move(dir),
    ensures
        0 <= g.player_index() < g.grid.tiles.len(),
        0 <= g.grid.index(g.target(dir).0, g.target(dir).1) < g.grid.tiles.len(),
        g.grid.index(g.target(dir).0, g.target(dir).1) != g.player_index(),
{
    let (x, y) = g.target(dir);
    let ox = g.player.pos.0 as int;
    let oy = g.player.pos.1 as int;
    lemma_index_bounds(g.grid.width, g.grid.height, ox, oy);
    lemma_index_bounds(g.grid.width, g.grid.height, x, y);
}

/// A step that stays on the grid keeps a well-formed game well formed.
pub proof fn lemma_moved_wf(g: GameView, dir: Dir)
    requires
        g.wf(),
        g.can_move(dir),
    ensures
        g.moved(dir).wf(),
{
    let m = g.moved(dir);
    let (x, y) = g.target(dir);
    let src = g.player_index();
    let dst = g.grid.index(x, y);
    let old_tiles = g.grid.tiles;
    let new_tiles = m.grid.tiles;
    lemma_target_differs(g, dir);
    lemma_without_player(old_tiles[src]);
    lemma_without_player(without_player(old_tiles[src]));
    lemma_without_player_push(old_tiles[dst], Cell::Player);
    assert(new_tiles[src] == without_player(old_tiles[src]));
    assert(new_tiles[dst] == old_tiles[dst].push(Cell::Player));
    assert(m.player_index() == dst);
    assert(new_tiles[dst][old_tiles[dst].len() as int] == Cell::Player);
    assert(has_one_player(new_tiles[dst])) by {
        assert(!has_player(old_tiles[dst]));
        assert forall|j: int| 0 <= j < old_tiles[dst].len() implies new_tiles[dst][j]
            != Cell::Player by {
            assert(old_tiles[dst][j] == new_tiles[dst][j]);
        }
    }
    assert forall|i: int| 0 <= i < new_tiles.len() implies (has_player(#[trigger] new_tiles[i])
        <==> i == dst) by {
        if i != src && i != dst {
            assert(new_tiles[i] == old_tiles[i]);
        }
    }
    assert forall|i: int| 0 <= i < new_tiles.len() implies without_player(
        #[trigger] new_tiles[i],
    ).len() > 0 by {
        if i != src && i != dst {
            assert(new_tiles[i] == old_tiles[i]);
        }
    }
    lemma_moved_refers(g, dir);
    assert forall|id: usize| id < m.emus.len() implies #[trigger] m.placed(id) by {
        assert(g.placed(id));
        let i = choose|i: int| g.refers(i, id);
        assert(m.refers(i, id));
    }
}

/// A step that stays on the grid changes no reference to a hostile.
proof fn lemma_moved_refers(g: GameView, dir: Dir)
    requires
        g.wf(),
        g.can_move(dir),
    ensures
        forall|i: int, id: usize| #[trigger] g.moved(dir).refers(i, id) == g.refers(i, id),
{
    let m = g.moved(dir);
    lemma_keeps_occupants(g, dir);
    assert forall|i: int, id: usize| #[trigger] m.refers(i, id) == g.refers(i, id) by {
        if 0 <= i < g.grid.tiles.len() {
            lemma_without_player(g.grid.tiles[i]);
            lemma_without_player(m.grid.tiles[i]);
        }
    }
}

/// A step that stays on the grid disturbs no occupant but the player:
/// every tile holds after it the occupants other than the player that it
/// held before, in the same order. The tile that the player left holds
/// them and nothing else, and the hostiles' records are as they were.
pub proof fn lemma_keeps_occupants(g: GameView, dir: Dir)
    requires
        g.wf(),
        g.can_move(dir),
    ensures
        g.moved(dir).grid.tiles.len() == g.grid.tiles.len(),
        forall|i: int|
            0 <= i < g.grid.tiles.len() ==> without_player(#[trigger] g.moved(dir).grid.tiles[i])
                == without_player(g.grid.tiles[i]),
        g.moved(dir).grid.tiles[g.player_index()] == without_player(
            g.grid.tiles[g.player_index()],
        ),
        g.moved(dir).emus == g.emus,
{
    let m = g.moved(dir);
    let (x, y) = g.target(dir);
    let src = g.player_index();
    let dst = g.grid.index(x, y);
    lemma_target_differs(g, dir);
    lemma_without_player(g.grid.tiles[src]);
    lemma_without_player(without_player(g.grid.tiles[src]));
    lemma_without_player_push(g.grid.tiles[dst], Cell::Player);
    assert forall|i: int| 0 <= i < g.grid.tiles.len() implies without_player(
        #[trigger] m.grid.tiles[i],
    ) == without_player(g.grid.tiles[i]) by {
        if i != src && i != dst {
            assert(m.grid.tiles[i] == g.grid.tiles[i]);
        }
    }
}

/// In a well-formed game exactly one tile holds the player, it holds it
/// once, and it is the tile that the player's record names.
pub proof fn lemma_single_player(g: GameView)
    requires
        g.wf(),
    ensures
        g.grid.in_bounds(g.player.pos.0 as int, g.player.pos.1 as int),
        0 <= g.player_index() < g.grid.tiles.len(),
        has_one_player(g.grid.tile(g.player.pos.0 as int, g.player.pos.1 as int)),
        forall|i: int|
            0 <= i < g.grid.tiles.len() && i != g.player_index() ==> !has_player(
                #[trigger] g.grid.tiles[i],
            ),
        forall|x: int, y: int|
            g.grid.in_bounds(x, y) && has_player(#[trigger] g.grid.tile(x, y)) ==> x
                == g.player.pos.0 && y == g.player.pos.1,
{
    let ox = g.player.pos.0 as int;
    let oy = g.player.pos.1 as int;
    lemma_index_bounds(g.grid.width, g.grid.height, ox, oy);
    assert forall|x: int, y: int|
        g.grid.in_bounds(x, y) && has_player(#[trigger] g.grid.tile(x, y)) implies x == ox && y
        == oy by {
        lemma_index_bounds(g.grid.width, g.grid.height, x, y);
        lemma_index_injective(g.grid.width as int, x, y, ox, oy);
    }
}

/// Two tiles of a row-by-row grid that stand at the same place have the
/// same coordinates.
proof fn lemma_index_injective(width: int, x1: int, y1: int, x2: int, y2: int)
    requires
        0 <= x1 < width,
        0 <= x2 < width,
        0 <= y1,
        0 <= y2,
        y1 * width + x1 == y2 * width + x2,
    ensures
        x1 == x2,
        y1 == y2,
{
    vstd::arithmetic::div_mod::lemma_fundamental_div_mod_converse(
        y1 * width + x1,
        width,
        y1,
        x1,
    );
    vstd::arithmetic::div_mod::lemma_fundamental_div_mod_converse(
        y2 * width + x2,
        width,
        y2,
        x2,
    );
}

/// A request for a step keeps a well-formed game well formed, whether the
/// step is taken or refused.
pub proof fn lemma_step_wf(g: GameView, dir: Dir)
    requires
        g.wf(),
    ensures
        g.step(dir).wf(),
{
    if g.can_move(dir) {
        lemma_moved_wf(g, dir);
    }
}

/// Whatever steps are asked for, in whatever order, a well-formed game
/// stays well formed: after each of them one tile holds the player, the
/// one that its record names.
pub proof fn lemma_run_wf(g: GameView, dirs: Seq<Dir>)
    requires
        g.wf(),
    ensures
        g.run(dirs).wf(),
    decreases dirs.len(),
{
    if dirs.len() > 0 {
        lemma_run_wf(g, dirs.drop_last());
        lemma_step_wf(g.run(dirs.drop_last()), dirs.last());
    }
}

/// When a step is refused: `Left` in the first column, `Right` in the
/// last, `Down` in the first row, `Up` in the last. A refused step leaves
/// the game as it was.
pub proof fn lemma_refused_at_edges(g: GameView, dir: Dir)
    requires
        g.wf(),
    ensures
        g.can_move(Dir::Left) <==> g.player.pos.0 > 0,
        g.can_move(Dir::Right) <==> g.player.pos.0 + 1 < g.grid.width,
        g.can_move(Dir::Down) <==> g.player.pos.1 > 0,
        g.can_move(Dir::Up) <==> g.player.pos.1 + 1 < g.grid.height,
        !g.can_move(dir) ==> g.step(dir) == g,
{
}

} // verus!
