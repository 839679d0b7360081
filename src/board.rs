//! The rectangular grid, its bounded access and its directional run scan.
use vstd::prelude::*;

use crate::cell::{Cell, Direction};

verus! {

/// A `width` × `height` grid stored row by row, bottom row first: the cell at
/// column `x`, row `y` sits at `y * width + x`.
pub struct Board {
    pub width: usize,
    pub height: usize,
    pub cells: Vec<Cell>,
}

/// Position of (x, y) in a row-major grid `width` cells wide.
pub open spec fn cell_index(width: int, x: int, y: int) -> int {
    y * width + x
}

/// Every in-bounds position maps into the storage, and distinct positions to
/// distinct slots.
pub proof fn lemma_cell_index(width: int, height: int, x: int, y: int)
    requires
        0 <= x < width,
        0 <= y < height,
    ensures
        0 <= y * width <= cell_index(width, x, y) < width * height,
        cell_index(width, x, y) % width == x,
        cell_index(width, x, y) / width == y,
{
    assert(0 <= y * width <= y * width + x < width * height) by (nonlinear_arith)
        requires
            0 <= x < width,
            0 <= y < height,
    ;
    vstd::arithmetic::div_mod::lemma_fundamental_div_mod_converse(y * width + x, width, y, x);
}

/// The cell `i` steps from (x, y) along `d`.
pub open spec fn stepped(x: int, y: int, d: Direction, i: int) -> (int, int) {
    (x + i * d.delta().0, y + i * d.delta().1)
}

/// `i` steps from (x, y) are `i - 1` steps from the cell one step along.
proof fn lemma_stepped_shift(x: int, y: int, d: Direction, i: int)
    ensures
        stepped(x + d.delta().0, y + d.delta().1, d, i - 1) == stepped(x, y, d, i),
{
    let (dx, dy) = d.delta();
    assert((x + dx) + (i - 1) * dx == x + i * dx) by (nonlinear_arith);
    assert((y + dy) + (i - 1) * dy == y + i * dy) by (nonlinear_arith);
}

impl Board {
    pub open spec fn wf(&self) -> bool {
        &&& self.width > 0
        &&& self.height > 0
        &&& self.cells@.len() == self.width * self.height
        &&& self.width * self.height <= usize::MAX
    }

    pub open spec fn in_bounds(&self, x: int, y: int) -> bool {
        0 <= x < self.width && 0 <= y < self.height
    }

    /// The occupant at (x, y).
    pub open spec fn occ(&self, x: int, y: int) -> u32 {
        self.cells@[cell_index(self.width as int, x, y)].occupant
    }

    /// How many steps along `d` stay on the grid, counted on the axis that `d`
    /// moves along first (x when it moves sideways, else y).
    pub open spec fn room(&self, x: int, y: int, d: Direction) -> int {
        let (dx, dy) = d.delta();
        if dx > 0 {
            self.width - 1 - x
        } else if dx < 0 {
            x
        } else if dy > 0 {
            self.height - 1 - y
        } else {
            y
        }
    }

    /// Length of the run that starts next to (x, y) along `d`: each step onto
    /// an in-bounds cell whose occupant equals the one it came from counts one.
    /// Two empty cells count as equal.
    pub open spec fn line_len(&self, x: int, y: int, d: Direction) -> nat
        decreases self.room(x, y, d),
    {
        let (dx, dy) = d.delta();
        let nx = x + dx;
        let ny = y + dy;
        if !self.in_bounds(nx, ny) {
            0
        } else if self.occ(x, y) == self.occ(nx, ny) {
            1 + self.line_len(nx, ny, d)
        } else {
            0
        }
    }

    /// The occupied cells of column `x` are exactly rows `0 .. k`.
    pub open spec fn column_filled_to(&self, x: int, k: int) -> bool {
        forall|y: int| 0 <= y < self.height ==> (#[trigger] self.occ(x, y) != 0 <==> y < k)
    }

    /// The `n` cells after (x, y) along `d` are on the grid and hold the
    /// occupant of (x, y).
    pub open spec fn run_along(&self, x: int, y: int, d: Direction, n: nat) -> bool {
        forall|i: int|
            1 <= i <= n ==> {
                let (sx, sy) = #[trigger] stepped(x, y, d, i);
                self.in_bounds(sx, sy) && self.occ(sx, sy) == self.occ(x, y)
            }
    }

    /// The cell `n + 1` steps from (x, y) along `d` is off the grid or holds
    /// another occupant than (x, y).
    pub open spec fn run_ends(&self, x: int, y: int, d: Direction, n: nat) -> bool {
        let (sx, sy) = stepped(x, y, d, n + 1 as int);
        !self.in_bounds(sx, sy) || self.occ(sx, sy) != self.occ(x, y)
    }

    /// A run of `n` equal occupants after (x, y) makes `line_len` at least `n`.
    pub proof fn lemma_line_len_at_least(&self, x: int, y: int, d: Direction, n: nat)
        requires
            self.run_along(x, y, d, n),
        ensures
            self.line_len(x, y, d) >= n,
        decreases n,
    {
        if n > 0 {
            let (nx, ny) = stepped(x, y, d, 1);
            self.lemma_run_shift(x, y, d, n);
            self.lemma_line_len_at_least(nx, ny, d, (n - 1) as nat);
        }
    }

    /// A run of `n` equal occupants after (x, y) that ends there makes
    /// `line_len` exactly `n`.
    pub proof fn lemma_line_len_exact(&self, x: int, y: int, d: Direction, n: nat)
        requires
            self.run_along(x, y, d, n),
            self.run_ends(x, y, d, n),
        ensures
            self.line_len(x, y, d) == n,
        decreases n,
    {
        let (nx, ny) = stepped(x, y, d, 1);
        assert(stepped(x, y, d, 1) == (x + d.delta().0, y + d.delta().1));
        if n > 0 {
            self.lemma_run_shift(x, y, d, n);
            self.lemma_line_len_exact(nx, ny, d, (n - 1) as nat);
        }
    }

    /// A run of `n` after (x, y) is a run of `n - 1` after the next cell.
    proof fn lemma_run_shift(&self, x: int, y: int, d: Direction, n: nat)
        requires
            n > 0,
            self.run_along(x, y, d, n),
        ensures
            ({
                let (nx, ny) = stepped(x, y, d, 1);
                &&& nx == x + d.delta().0
                &&& ny == y + d.delta().1
                &&& self.in_bounds(nx, ny)
                &&& self.occ(nx, ny) == self.occ(x, y)
                &&& self.run_along(nx, ny, d, (n - 1) as nat)
                &&& self.run_ends(x, y, d, n) ==> self.run_ends(nx, ny, d, (n - 1) as nat)
            }),
    {
        let (nx, ny) = stepped(x, y, d, 1);
        assert(stepped(x, y, d, 1) == (x + d.delta().0, y + d.delta().1));
        assert forall|i: int| 1 <= i <= n + 1 implies #[trigger] stepped(nx, ny, d, i - 1)
            == stepped(x, y, d, i) by {
            lemma_stepped_shift(x, y, d, i);
        }
        assert forall|i: int| 1 <= i <= n - 1 implies {
            let (sx, sy) = #[trigger] stepped(nx, ny, d, i);
            self.in_bounds(sx, sy) && self.occ(sx, sy) == self.occ(nx, ny)
        } by {
            lemma_stepped_shift(x, y, d, i + 1);
            assert(stepped(x, y, d, i + 1) == stepped(nx, ny, d, i));
        }
        lemma_stepped_shift(x, y, d, n + 1 as int);
    }

    /// An empty board.
    pub fn new(width: usize, height: usize) -> (r: Board)
        requires
            width > 0,
            height > 0,
            width * height <= usize::MAX,
        ensures
            r.wf(),
            r.width == width,
            r.height == height,
            forall|i: int| 0 <= i < r.cells@.len() ==> r.cells@[i].occupant == 0,
    {
        let n: usize = width * height;
        let mut cells: Vec<Cell> = Vec::with_capacity(n);
        let mut i: usize = 0;
        while i < n
            invariant
                i <= n,
                cells@.len() == i,
                forall|j: int| 0 <= j < i ==> cells@[j].occupant == 0,
            decreases n - i,
        {
            cells.push(Cell::new());
            i += 1;
        }
        Board { width, height, cells }
    }

    /// The cell at (x, y), or `None` off the grid.
    pub fn get_cell(&self, x: usize, y: usize) -> (r: Option<&Cell>)
        requires
            self.wf(),
        ensures
            match r {
                Some(c) => self.in_bounds(x as int, y as int) && *c == self.cells@[cell_index(
                    self.width as int,
                    x as int,
                    y as int,
                )],
                None => !self.in_bounds(x as int, y as int),
            },
    {
        if x >= self.width || y >= self.height {
            None
        } else {
            proof {
                lemma_cell_index(self.width as int, self.height as int, x as int, y as int);
            }
            Some(&self.cells[y * self.width + x])
        }
    }

    /// Gives the empty or occupied cell at (x, y) to player `player`.
    pub fn occupy_cell(&mut self, x: usize, y: usize, player: u32)
        requires
            old(self).wf(),
            old(self).in_bounds(x as int, y as int),
            player < u32::MAX,
        ensures
            final(self).width == old(self).width,
            final(self).height == old(self).height,
            final(self).cells@ == old(self).cells@.update(
                cell_index(old(self).width as int, x as int, y as int),
                Cell { occupant: (player + 1) as u32 },
            ),
    {
        proof {
            lemma_cell_index(self.width as int, self.height as int, x as int, y as int);
        }
        let i = y * self.width + x;
        let mut c = self.cells[i];
        c.occupy(player);
        self.cells.set(i, c);
    }

    /// Number of cells past the occupied cell (x, y) along `direction` that
    /// hold the same player's pieces; see `line_len`. From an empty cell the
    /// count would run through empty space, so the cell must be occupied.
    pub fn get_line_length(&self, x: usize, y: usize, direction: Direction) -> (r: usize)
        requires
            self.wf(),
            self.in_bounds(x as int, y as int),
            self.occ(x as int, y as int) != 0,
        ensures
            r == self.line_len(x as int, y as int, direction),
            r <= self.room(x as int, y as int, direction),
    {
        let (dx, dy) = direction.to_tuple();
        let mut cx: usize = x;
        let mut cy: usize = y;
        let mut count: usize = 0;
        loop
            invariant
                self.wf(),
                self.in_bounds(cx as int, cy as int),
                dx == direction.delta().0,
                dy == direction.delta().1,
                count + self.room(cx as int, cy as int, direction) == self.room(
                    x as int,
                    y as int,
                    direction,
                ),
                count + self.line_len(cx as int, cy as int, direction) == self.line_len(
                    x as int,
                    y as int,
                    direction,
                ),
            decreases self.room(cx as int, cy as int, direction),
        {
            if (dx < 0 && cx == 0) || (dx > 0 && cx + 1 >= self.width) || (dy < 0 && cy == 0) || (
            dy > 0 && cy + 1 >= self.height) {
                return count;
            }
            let nx: usize = if dx < 0 {
                cx - 1
            } else if dx > 0 {
                cx + 1
            } else {
                cx
            };
            let ny: usize = if dy < 0 {
                cy - 1
            } else if dy > 0 {
                cy + 1
            } else {
                cy
            };
            proof {
                lemma_cell_index(self.width as int, self.height as int, cx as int, cy as int);
                lemma_cell_index(self.width as int, self.height as int, nx as int, ny as int);
            }
            if self.cells[cy * self.width + cx] == self.cells[ny * self.width + nx] {
                cx = nx;
                cy = ny;
                count = count + 1;
            } else {
                return count;
            }
        }
    }

    /// The rows of the board, top row first, each from left to right.
    pub fn get_grid(&self) -> (r: Vec<Vec<Cell>>)
        requires
            self.wf(),
        ensures
            r@.len() == self.height,
            forall|i: int| 0 <= i < self.height ==> (#[trigger] r@[i])@.len() == self.width,
            forall|i: int, j: int|
                0 <= i < self.height && 0 <= j < self.width ==> #[trigger] r@[i]@[j] == self.cells@[cell_index(
                    self.width as int,
                    j,
                    self.height - 1 - i,
                )],
    {
        let mut rows: Vec<Vec<Cell>> = Vec::with_capacity(self.height);
        let mut i: usize = 0;
        while i < self.height
            invariant
                self.wf(),
                i <= self.height,
                rows@.len() == i,
                forall|k: int| 0 <= k < i ==> (#[trigger] rows@[k])@.len() == self.width,
                forall|k: int, j: int|
                    0 <= k < i && 0 <= j < self.width ==> #[trigger] rows@[k]@[j] == self.cells@[cell_index(
                        self.width as int,
                        j,
                        self.height - 1 - k,
                    )],
            decreases self.height - i,
        {
            let y = self.height - 1 - i;
            let mut row: Vec<Cell> = Vec::with_capacity(self.width);
            let mut x: usize = 0;
            while x < self.width
                invariant
                    self.wf(),
                    y < self.height,
                    x <= self.width,
                    row@.len() == x,
                    forall|j: int|
                        0 <= j < x ==> #[trigger] row@[j] == self.cells@[cell_index(self.width as int, j, y as int)],
                decreases self.width - x,
            {
                proof {
                    lemma_cell_index(self.width as int, self.height as int, x as int, y as int);
                }
                row.push(self.cells[y * self.width + x]);
                x += 1;
            }
            rows.push(row);
            i += 1;
        }
        rows
    }

}

} // verus!
