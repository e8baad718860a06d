//! The static collision geometry: a row-major grid of solid and empty tiles.

use vstd::prelude::*;
use crate::error::EngineError;
use crate::geometry::{floor_div, floor_div_exec, lemma_span_cells, Area, Rect};

verus! {

#[derive(Clone, Copy, Debug, PartialEq, Eq, Structural)]
pub enum Tile {
    Empty,
    Solid,
}

impl Tile {
    /// The tile of a cell that is occupied, or of one that is not.
    pub open spec fn of(occupied: bool) -> Tile {
        if occupied {
            Tile::Solid
        } else {
            Tile::Empty
        }
    }
}

/// The tiles of a layer, from the marks that say for each of its cells, in
/// row-major order, whether something occupies it.
pub fn tiles_from_solidity(occupied: &Vec<bool>) -> (tiles: Vec<Tile>)
    ensures
        tiles@.len() == occupied@.len(),
        forall|i: int| 0 <= i < occupied@.len() ==> tiles@[i] == Tile::of(occupied@[i]),
{
    let mut tiles: Vec<Tile> = Vec::new();
    let mut i: usize = 0;
    while i < occupied.len()
        invariant
            i <= occupied@.len(),
            tiles@.len() == i,
            forall|k: int| 0 <= k < i ==> tiles@[k] == Tile::of(occupied@[k]),
        decreases occupied@.len() - i,
    {
        tiles.push(if occupied[i] { Tile::Solid } else { Tile::Empty });
        i = i + 1;
    }
    tiles
}

/// What a grid is, mathematically.
pub struct GridView {
    pub tile_width: int,
    pub tile_height: int,
    pub grid_width: int,
    pub grid_height: int,
    pub cells: Seq<Tile>,
}

impl GridView {
    pub open spec fn wf(self) -> bool {
        &&& self.tile_width > 0
        &&& self.tile_height > 0
        &&& self.grid_width > 0
        &&& self.grid_height >= 0
        &&& self.cells.len() == self.grid_width * self.grid_height
    }

    pub open spec fn in_bounds(self, cx: int, cy: int) -> bool {
        0 <= cx < self.grid_width && 0 <= cy < self.grid_height
    }

    /// Cells beyond the grid are never solid.
    pub open spec fn solid_at(self, cx: int, cy: int) -> bool {
        self.in_bounds(cx, cy) && self.cells[cy * self.grid_width + cx] == Tile::Solid
    }

    /// Some solid cell shares a point with `area`.
    pub open spec fn covers_solid(self, area: Area) -> bool {
        exists|cx: int, cy: int|
            #[trigger] self.solid_at(cx, cy) && area.meets_cell(
                cx,
                cy,
                self.tile_width,
                self.tile_height,
            )
    }
}

/// The layouts that make a grid: positive tile sizes, a positive number of
/// columns, whole rows only, and a number of rows that an `i32` holds.
pub open spec fn layout_ok(len: nat, tile_width: int, tile_height: int, grid_width: int) -> bool {
    &&& tile_width > 0
    &&& tile_height > 0
    &&& grid_width > 0
    &&& len % (grid_width as nat) == 0
    &&& len / (grid_width as nat) <= i32::MAX
}

/// The grid that `tiles` make when laid out in rows of `grid_width`.
pub open spec fn laid_out(tiles: Seq<Tile>, tile_width: int, tile_height: int, grid_width: int) -> GridView {
    GridView {
        tile_width,
        tile_height,
        grid_width,
        grid_height: (tiles.len() as int) / grid_width,
        cells: tiles,
    }
}

#[derive(Debug)]
pub struct TileGrid {
    tile_width: i32,
    tile_height: i32,
    grid_width: i32,
    grid_height: i32,
    cells: Vec<Tile>,
}

impl View for TileGrid {
    type V = GridView;

    closed spec fn view(&self) -> GridView {
        GridView {
            tile_width: self.tile_width as int,
            tile_height: self.tile_height as int,
            grid_width: self.grid_width as int,
            grid_height: self.grid_height as int,
            cells: self.cells@,
        }
    }
}

impl TileGrid {
    #[verifier::type_invariant]
    pub(crate) open spec fn well_formed(&self) -> bool {
        self@.wf()
    }

    /// Builds the grid from its tiles in row-major order, `grid_width` to a
    /// row. The number of rows is the number of tiles divided by
    /// `grid_width`.
    pub fn build(tiles: Vec<Tile>, tile_width: i32, tile_height: i32, grid_width: i32) -> (r:
        Result<TileGrid, EngineError>)
        ensures
            layout_ok(tiles@.len(), tile_width as int, tile_height as int, grid_width as int)
                ==> r is Ok && r->Ok_0@.wf() && r->Ok_0@ == laid_out(
                tiles@,
                tile_width as int,
                tile_height as int,
                grid_width as int,
            ),
            !layout_ok(tiles@.len(), tile_width as int, tile_height as int, grid_width as int)
                ==> r == Err::<TileGrid, EngineError>(EngineError::InvalidLayout),
    {
        if tile_width <= 0 || tile_height <= 0 || grid_width <= 0 {
            return Err(EngineError::InvalidLayout);
        }
        let len: usize = tiles.len();
        let columns: usize = grid_width as usize;
        if len % columns != 0 {
            return Err(EngineError::InvalidLayout);
        }
        let rows: usize = len / columns;
        if rows > i32::MAX as usize {
            return Err(EngineError::InvalidLayout);
        }
        proof {
            assert(len == columns * rows) by (nonlinear_arith)
                requires
                    columns > 0,
                    len % columns == 0,
                    rows == len / columns,
            ;
        }
        Ok(TileGrid { tile_width, tile_height, grid_width, grid_height: rows as i32, cells: tiles })
    }

    pub fn tile_width(&self) -> (r: i32)
        ensures
            r == self@.tile_width,
            self@.wf(),
    {
        proof {
            use_type_invariant(self);
        }
        self.tile_width
    }

    pub fn tile_height(&self) -> (r: i32)
        ensures
            r == self@.tile_height,
            self@.wf(),
    {
        proof {
            use_type_invariant(self);
        }
        self.tile_height
    }

    pub fn grid_width(&self) -> (r: i32)
        ensures
            r == self@.grid_width,
            self@.wf(),
    {
        proof {
            use_type_invariant(self);
        }
        self.grid_width
    }

    pub fn grid_height(&self) -> (r: i32)
        ensures
            r == self@.grid_height,
            self@.wf(),
    {
        proof {
            use_type_invariant(self);
        }
        self.grid_height
    }

    /// Whether the cell is solid. A cell outside the grid is not.
    pub fn solid_at(&self, cell_x: i32, cell_y: i32) -> (r: bool)
        ensures
            r == self@.solid_at(cell_x as int, cell_y as int),
    {
        proof {
            use_type_invariant(self);
        }
        if cell_x < 0 || cell_x >= self.grid_width || cell_y < 0 || cell_y >= self.grid_height {
            return false;
        }
        let columns: usize = self.grid_width as usize;
        let row: usize = cell_y as usize;
        let column: usize = cell_x as usize;
        let len: usize = self.cells.len();
        proof {
            let rows = self.grid_height as int;
            assert(len == columns * rows);
            assert(0 <= row * columns && row * columns + column < columns * rows) by (nonlinear_arith)
                requires
                    0 <= row < rows,
                    0 <= column < columns,
            ;
        }
        let tile: Tile = self.cells[row * columns + column];
        tile == Tile::Solid
    }

    /// Whether `rect` shares a point with a solid cell.
    pub fn overlaps_solid(&self, rect: Rect) -> (r: bool)
        ensures
            r == self@.covers_solid(rect@),
    {
        proof {
            use_type_invariant(self);
        }
        if rect.right <= rect.left || rect.bottom <= rect.top {
            return false;
        }
        let first_x: i64 = floor_div_exec(rect.left, self.tile_width);
        let last_x: i64 = floor_div_exec(rect.right - 1, self.tile_width);
        let first_y: i64 = floor_div_exec(rect.top, self.tile_height);
        let last_y: i64 = floor_div_exec(rect.bottom - 1, self.tile_height);
        let lo_x: i64 = if first_x < 0 { 0 } else { first_x };
        let lo_y: i64 = if first_y < 0 { 0 } else { first_y };
        let end_x: i64 = if last_x >= self.grid_width as i64 { self.grid_width as i64 } else { last_x + 1 };
        let end_y: i64 = if last_y >= self.grid_height as i64 { self.grid_height as i64 } else { last_y + 1 };
        proof {
            assert forall|cx: int, cy: int|
                rect@.meets_cell(cx, cy, self@.tile_width, self@.tile_height) implies first_x
                <= cx <= last_x && first_y <= cy <= last_y by {
                lemma_span_cells(rect.left as int, rect.right as int, cx, self@.tile_width);
                lemma_span_cells(rect.top as int, rect.bottom as int, cy, self@.tile_height);
            }
        }
        let mut cy: i64 = lo_y;
        while cy < end_y
            invariant
                self@.wf(),
                0 <= lo_y <= cy,
                0 <= lo_x,
                end_x <= self@.grid_width,
                end_y <= self@.grid_height,
                lo_y <= end_y ==> cy <= end_y,
                !rect@.is_empty(),
                first_x == floor_div(rect.left as int, self@.tile_width),
                last_x == floor_div(rect.right - 1, self@.tile_width),
                first_y == floor_div(rect.top as int, self@.tile_height),
                last_y == floor_div(rect.bottom - 1, self@.tile_height),
                first_x <= lo_x && end_x <= last_x + 1,
                first_y <= lo_y && end_y <= last_y + 1,
                forall|x: int, y: int| lo_x <= x < end_x && lo_y <= y < cy ==> !self@.solid_at(x, y),
            decreases end_y - cy,
        {
            let mut cx: i64 = lo_x;
            while cx < end_x
                invariant
                    self@.wf(),
                    0 <= lo_y <= cy < end_y,
                    0 <= lo_x <= cx,
                    end_x <= self@.grid_width,
                    end_y <= self@.grid_height,
                    lo_x <= end_x ==> cx <= end_x,
                    !rect@.is_empty(),
                    first_x == floor_div(rect.left as int, self@.tile_width),
                    last_x == floor_div(rect.right - 1, self@.tile_width),
                    first_y == floor_div(rect.top as int, self@.tile_height),
                    last_y == floor_div(rect.bottom - 1, self@.tile_height),
                    first_x <= lo_x && end_x <= last_x + 1,
                    first_y <= lo_y && end_y <= last_y + 1,
                    forall|x: int, y: int|
                        lo_x <= x < end_x && lo_y <= y < cy ==> !self@.solid_at(x, y),
                    forall|x: int| lo_x <= x < cx ==> !self@.solid_at(x, cy as int),
                decreases end_x - cx,
            {
                if self.solid_at(cx as i32, cy as i32) {
                    proof {
                        lemma_span_cells(
                            rect.left as int,
                            rect.right as int,
                            cx as int,
                            self@.tile_width,
                        );
                        lemma_span_cells(
                            rect.top as int,
                            rect.bottom as int,
                            cy as int,
                            self@.tile_height,
                        );
                        assert(self@.solid_at(cx as int, cy as int));
                    }
                    return true;
                }
                cx = cx + 1;
            }
            cy = cy + 1;
        }
        false
    }
}

/// Builds the collision grid of a world: see [`TileGrid::build`].
pub fn build_grid(tiles: Vec<Tile>, tile_width: i32, tile_height: i32, grid_width: i32) -> (r:
    Result<TileGrid, EngineError>)
    ensures
        layout_ok(tiles@.len(), tile_width as int, tile_height as int, grid_width as int) ==> r is Ok
            && r->Ok_0@.wf() && r->Ok_0@ == laid_out(
            tiles@,
            tile_width as int,
            tile_height as int,
            grid_width as int,
        ),
        !layout_ok(tiles@.len(), tile_width as int, tile_height as int, grid_width as int) ==> r
            == Err::<TileGrid, EngineError>(EngineError::InvalidLayout),
{
    TileGrid::build(tiles, tile_width, tile_height, grid_width)
}

} // verus!
