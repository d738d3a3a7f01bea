//! The occupancy grid: `width * height` tiles, each an ordered list of
//! occupants, stored row by row.

use crate::cell::{
    has_player, lemma_without_player, lemma_without_player_push, tile_glyph, tile_has_player,
    tile_without_player, without_player, Cell, GLYPH_PLAYER,
};
use vstd::prelude::*;

verus! {

/// The character that separates the rows of a rendering: a line feed.
pub const NEWLINE: u8 = 10;

/// A coordinate lies outside the grid.
#[derive(Clone, Copy, Debug, PartialEq, Eq, Structural)]
pub struct OutOfBounds;

/// The grid as a mathematical value: its two dimensions and its tiles, row
/// by row, each tile a sequence of occupants.
pub struct GridView {
    /// The number of tiles in a row.
    pub width: nat,
    /// The number of rows.
    pub height: nat,
    /// The tiles: the tile `(x, y)` stands at `y * width + x`.
    pub tiles: Seq<Seq<Cell>>,
}

impl GridView {
    /// Whether `(x, y)` names a tile of the grid.
    pub open spec fn in_bounds(self, x: int, y: int) -> bool {
        0 <= x < self.width && 0 <= y < self.height
    }

    /// Where the tile `(x, y)` stands among the tiles.
    pub open spec fn index(self, x: int, y: int) -> int {
        y * self.width + x
    }

    /// The occupants of the tile `(x, y)`.
    pub open spec fn tile(self, x: int, y: int) -> Seq<Cell> {
        self.tiles[self.index(x, y)]
    }

    /// The dimensions are ones that a grid in memory can have, there is one
    /// tile for each coordinate, and each tile holds at least one occupant
    /// that is not the player.
    pub open spec fn wf(self) -> bool {
        &&& self.width <= usize::MAX
        &&& self.height <= usize::MAX
        &&& self.tiles.len() == self.width * self.height
        &&& forall|i: int|
            0 <= i < self.tiles.len() ==> without_player(#[trigger] self.tiles[i]).len() > 0
    }

    /// The grid with the player taken out of the tile `(x, y)`.
    pub open spec fn remove_player(self, x: int, y: int) -> GridView {
        GridView {
            tiles: self.tiles.update(self.index(x, y), without_player(self.tile(x, y))),
            ..self
        }
    }

    /// The grid with the player added at the end of the tile `(x, y)`.
    pub open spec fn insert_player(self, x: int, y: int) -> GridView {
        GridView {
            tiles: self.tiles.update(self.index(x, y), self.tile(x, y).push(Cell::Player)),
            ..self
        }
    }

    /// The characters that show the tiles, one for each tile, row by row.
    pub open spec fn glyphs(self) -> Seq<u8> {
        Seq::new(self.tiles.len(), |i: int| tile_glyph(self.tiles[i]))
    }

    /// The characters that show row `y`, from left to right.
    pub open spec fn line(self, y: int) -> Seq<u8> {
        Seq::new(self.width, |x: int| tile_glyph(self.tile(x, y)))
    }

    /// The first `rows` rows, from the top, with a line feed between one
    /// row and the next.
    pub open spec fn lines(self, rows: nat) -> Seq<u8>
        decreases rows,
    {
        if rows == 0 {
            Seq::empty()
        } else if rows == 1 {
            self.line(0)
        } else {
            self.lines((rows - 1) as nat).push(NEWLINE) + self.line(rows - 1)
        }
    }

    /// The whole grid as text: its rows with a line feed between them.
    pub open spec fn rendering(self) -> Seq<u8> {
        self.lines(self.height)
    }
}

/// A tile of a grid with `width * height` tiles has a place among them,
/// and the tile above it stands one row further on.
pub proof fn lemma_index_bounds(width: nat, height: nat, x: int, y: int)
    requires
        0 <= x < width,
        0 <= y < height,
    ensures
        0 <= y * width <= y * width + x < width * height,
        (y + 1) * width == y * width + width,
{
    assert(0 <= y * width && y * width + width <= height * width && (y + 1) * width == y * width
        + width && height * width == width * height) by (nonlinear_arith)
        requires
            0 <= y < height,
            0 <= width,
    ;
}

/// The occupancy grid.
#[derive(Clone, Debug, PartialEq, Eq)]
pub struct Grid {
    width: usize,
    height: usize,
    data: Vec<Vec<Cell>>,
}

impl View for Grid {
    type V = GridView;

    closed spec fn view(&self) -> GridView {
        GridView {
            width: self.width as nat,
            height: self.height as nat,
            tiles: Seq::new(self.data@.len(), |i: int| self.data@[i]@),
        }
    }
}

impl Grid {
    /// Whether the grid is well formed: see `GridView::wf`.
    pub open spec fn wf(&self) -> bool {
        self@.wf()
    }

    /// A grid of the given dimensions from its tiles, row by row.
    pub(crate) fn from_tiles(width: usize, height: usize, data: Vec<Vec<Cell>>) -> (grid: Grid)
        ensures
            grid@ == (GridView {
                width: width as nat,
                height: height as nat,
                tiles: Seq::new(data@.len(), |i: int| data@[i]@),
            }),
    {
        Grid { width, height, data }
    }

    /// Where the tile `(x, y)` stands in `data`.
    fn offset(&self, x: usize, y: usize) -> (i: usize)
        requires
            self.wf(),
            self@.in_bounds(x as int, y as int),
        ensures
            i == self@.index(x as int, y as int),
            i < self.data@.len(),
    {
        proof {
            lemma_index_bounds(self@.width, self@.height, x as int, y as int);
            assert(self.data.len() == self@.tiles.len());
        }
        y * self.width + x
    }

    /// The number of tiles in a row.
    pub fn width(&self) -> (w: usize)
        ensures
            w == self@.width,
    {
        self.width
    }

    /// The number of rows.
    pub fn height(&self) -> (h: usize)
        ensures
            h == self@.height,
    {
        self.height
    }

    /// The occupants of the tile `(x, y)`, or `OutOfBounds` where `x` is
    /// not below the width or `y` not below the height.
    pub fn tile_at(&self, x: usize, y: usize) -> (r: Result<&Vec<Cell>, OutOfBounds>)
        requires
            self.wf(),
        ensures
            r is Ok <==> self@.in_bounds(x as int, y as int),
            r matches Ok(tile) ==> tile@ == self@.tile(x as int, y as int),
    {
        if x >= self.width || y >= self.height {
            return Err(OutOfBounds);
        }
        Ok(&self.data[self.offset(x, y)])
    }

    /// The character that shows the tile `(x, y)` of the grid.
    fn glyph_at(&self, x: usize, y: usize) -> (g: u8)
        requires
            self.wf(),
            self@.in_bounds(x as int, y as int),
        ensures
            g == tile_glyph(self@.tile(x as int, y as int)),
    {
        let i = self.offset(x, y);
        let tile = &self.data[i];
        if tile_has_player(tile) {
            GLYPH_PLAYER
        } else {
            proof {
                assert(self@.tiles[i as int] == tile@);
                lemma_without_player(tile@);
            }
            tile[0].glyph()
        }
    }

    /// The character that shows the tile `(x, y)`: the player's where the
    /// player is among its occupants, else that of its first occupant.
    /// `OutOfBounds` where `(x, y)` is no tile of the grid.
    pub fn render_glyph(&self, x: usize, y: usize) -> (r: Result<u8, OutOfBounds>)
        requires
            self.wf(),
        ensures
            r is Ok <==> self@.in_bounds(x as int, y as int),
            r matches Ok(g) ==> g == tile_glyph(self@.tile(x as int, y as int)),
    {
        if x >= self.width || y >= self.height {
            return Err(OutOfBounds);
        }
        Ok(self.glyph_at(x, y))
    }

    /// The whole grid as text: one character for each tile, the rows from
    /// the top, with a line feed between one row and the next and none
    /// after the last.
    pub fn render(&self) -> (out: Vec<u8>)
        requires
            self.wf(),
        ensures
            out@ == self@.rendering(),
    {
        let mut out: Vec<u8> = Vec::new();
        let mut y: usize = 0;
        while y < self.height
            invariant
                self.wf(),
                y <= self.height,
                out@ == self@.lines(y as nat),
            decreases self.height - y,
        {
            if y > 0 {
                out.push(NEWLINE);
            }
            let ghost head = out@;
            let mut x: usize = 0;
            while x < self.width
                invariant
                    self.wf(),
                    y < self.height,
                    x <= self.width,
                    out@ == head + self@.line(y as int).take(x as int),
                decreases self.width - x,
            {
                let g = self.glyph_at(x, y);
                out.push(g);
                proof {
                    let line = self@.line(y as int);
                    assert(line.take(x + 1) =~= line.take(x as int).push(g));
                    assert(out@ =~= head + line.take(x + 1));
                }
                x += 1;
            }
            proof {
                let line = self@.line(y as int);
                assert(line.take(self.width as int) =~= line);
                if y == 0 {
                    assert(out@ =~= line);
                }
            }
            y += 1;
        }
        out
    }

    /// Takes the player out of the tile `(x, y)`. The other occupants of
    /// the tile stay, in their order, and no other tile changes.
    ///
    /// The tile must hold the player: a caller that asks for the player to
    /// be removed from where it is not has lost track of it.
    pub fn remove_player(&mut self, x: usize, y: usize)
        requires
            old(self).wf(),
            old(self)@.in_bounds(x as int, y as int),
            has_player(old(self)@.tile(x as int, y as int)),
        ensures
            final(self).wf(),
            final(self)@ == old(self)@.remove_player(x as int, y as int),
    {
        let i = self.offset(x, y);
        let rest = tile_without_player(&self.data[i]);
        proof {
            lemma_without_player(self.data@[i as int]@);
            lemma_without_player(rest@);
        }
        self.data[i] = rest;
        proof {
            assert(self@.tiles =~= old(self)@.remove_player(x as int, y as int).tiles);
        }
    }

    /// Adds the player to the tile `(x, y)`, after the occupants that the
    /// tile has. No other tile changes.
    pub fn insert_player(&mut self, x: usize, y: usize)
        requires
            old(self).wf(),
            old(self)@.in_bounds(x as int, y as int),
        ensures
            final(self).wf(),
            final(self)@ == old(self)@.insert_player(x as int, y as int),
    {
        let i = self.offset(x, y);
        self.data[i].push(Cell::Player);
        proof {
            assert(self@.tiles =~= old(self)@.insert_player(x as int, y as int).tiles);
            lemma_without_player_push(old(self).data@[i as int]@, Cell::Player);
        }
    }
}

} // verus!
