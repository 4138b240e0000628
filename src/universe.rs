use vstd::prelude::*;

use vstd::string::*;

use crate::cells::{encoding, glyph_of, Cell};
use crate::rules::{hades, next_state};

verus! {

/// A toroidal grid of cells, stored row by row in one flat vector.
pub struct Universe {
    width: u32,
    height: u32,
    cells: Vec<Cell>,
}

/// The flat index of `(row, col)` in a grid of the given width.
pub open spec fn index_of(width: int, row: int, col: int) -> int {
    row * width + col
}

/// The coordinate that lies `delta` steps from `x` on a ring of `n` positions.
pub open spec fn wrap(x: int, delta: int, n: int) -> int {
    (x + delta) % n
}

/// Whether some coordinate of `seeds` lies inside a `width` by `height` grid and
/// has flat index `i`.
pub open spec fn targets(seeds: Seq<[u32; 2]>, width: int, height: int, i: int) -> bool {
    exists|k: int|
        0 <= k < seeds.len() && seeds[k][0] < height && seeds[k][1] < width
            && #[trigger] index_of(width, seeds[k][0] as int, seeds[k][1] as int) == i
}

/// The cells after marking alive every coordinate of `seeds` that lies inside
/// the grid; coordinates outside it are ignored and every other cell is kept.
pub open spec fn seeded(cells: Seq<Cell>, width: int, height: int, seeds: Seq<[u32; 2]>) -> Seq<Cell> {
    Seq::new(
        cells.len(),
        |i: int|
            if targets(seeds, width, height, i) {
                Cell::Alive
            } else {
                cells[i]
            },
    )
}

/// The glyphs of row `row` of a grid of the given width, left column first.
pub open spec fn row_text(cells: Seq<Cell>, width: int, row: int) -> Seq<char> {
    Seq::new(width as nat, |col: int| glyph_of(cells[index_of(width, row, col)]))
}

/// The first `rows` rows of a grid as text, top row first, one line per row,
/// with a newline between rows and none after the last.
pub open spec fn grid_text(cells: Seq<Cell>, width: int, rows: nat) -> Seq<char>
    decreases rows,
{
    if rows == 0 {
        Seq::empty()
    } else if rows == 1 {
        row_text(cells, width, 0)
    } else {
        grid_text(cells, width, (rows - 1) as nat) + seq!['\n'] + row_text(cells, width, rows - 1)
    }
}

impl Universe {
    /// The dimensions are positive, the grid fits in 32 bits, and there is one
    /// cell for each coordinate.
    pub open spec fn wf(&self) -> bool {
        &&& self.spec_width() >= 1
        &&& self.spec_height() >= 1
        &&& self.spec_width() * self.spec_height() <= u32::MAX
        &&& self.spec_cells().len() == self.spec_width() * self.spec_height()
    }

    pub closed spec fn spec_width(&self) -> int {
        self.width as int
    }

    pub closed spec fn spec_height(&self) -> int {
        self.height as int
    }

    pub closed spec fn spec_cells(&self) -> Seq<Cell> {
        self.cells@
    }

    /// The cell at `(row, col)`, for coordinates within the grid.
    pub open spec fn cell_at(&self, row: int, col: int) -> Cell {
        self.spec_cells()[index_of(self.spec_width(), row, col)]
    }

    /// 1 when the neighbour of `(row, col)` at offset `(dr, dc)` is alive, 0
    /// otherwise; the offset wraps around both edges.
    pub open spec fn neighbour_alive(&self, row: int, col: int, dr: int, dc: int) -> int {
        encoding(self.cell_at(wrap(row, dr, self.spec_height()), wrap(col, dc, self.spec_width()))) as int
    }

    /// The number of live cells among the eight neighbours of `(row, col)` on the torus.
    pub open spec fn neighbour_count(&self, row: int, col: int) -> int {
        self.neighbour_alive(row, col, -1, -1) + self.neighbour_alive(row, col, -1, 0)
            + self.neighbour_alive(row, col, -1, 1) + self.neighbour_alive(row, col, 0, -1)
            + self.neighbour_alive(row, col, 0, 1) + self.neighbour_alive(row, col, 1, -1)
            + self.neighbour_alive(row, col, 1, 0) + self.neighbour_alive(row, col, 1, 1)
    }

    /// The cells of the next generation: each cell follows the transition rule
    /// applied to its own state and its neighbour count in this generation.
    pub open spec fn next_generation(&self) -> Seq<Cell> {
        Seq::new(
            self.spec_cells().len(),
            |i: int|
                next_state(
                    self.spec_cells()[i],
                    self.neighbour_count(i / self.spec_width(), i % self.spec_width()),
                ),
        )
    }

    /// Creates a `width` by `height` grid in which every cell is dead.
    pub fn new(width: u32, height: u32) -> (u: Universe)
        requires
            width >= 1,
            height >= 1,
            width * height <= u32::MAX,
        ensures
            u.wf(),
            u.spec_width() == width,
            u.spec_height() == height,
            u.spec_cells() == Seq::new((width * height) as nat, |i: int| Cell::Dead),
    {
        let n: usize = (width * height) as usize;
        let mut cells: Vec<Cell> = Vec::new();
        let mut i: usize = 0;
        while i < n
            invariant
                i <= n,
                cells@.len() == i,
                forall|j: int| 0 <= j < i ==> cells@[j] == Cell::Dead,
            decreases n - i,
        {
            cells.push(Cell::Dead);
            i = i + 1;
        }
        let u = Universe { width, height, cells };
        assert(u.spec_cells() =~= Seq::new((width * height) as nat, |i: int| Cell::Dead));
        u
    }

    pub fn width(&self) -> (r: u32)
        ensures
            r == self.spec_width(),
    {
        self.width
    }

    pub fn height(&self) -> (r: u32)
        ensures
            r == self.spec_height(),
    {
        self.height
    }

    /// A read-only view of the cells, row by row.
    pub fn cells(&self) -> (r: &[Cell])
        ensures
            r@ == self.spec_cells(),
    {
        self.cells.as_slice()
    }

    /// The flat index of `(row, col)`.
    pub fn to_index(&self, row: u32, col: u32) -> (r: usize)
        requires
            self.wf(),
            row < self.spec_height(),
            col < self.spec_width(),
        ensures
            r == index_of(self.spec_width(), row as int, col as int),
            r < self.spec_cells().len(),
    {
        proof { lemma_index_in_range(self.width as int, self.height as int, row as int, col as int); }
        (self.width * row + col) as usize
    }

    /// The coordinate `(row, col)` of a flat index.
    pub fn from_index(&self, index: usize) -> (r: (u32, u32))
        requires
            self.wf(),
            index < self.spec_cells().len(),
        ensures
            r.0 == index as int / self.spec_width(),
            r.1 == index as int % self.spec_width(),
            r.0 < self.spec_height(),
            r.1 < self.spec_width(),
    {
        proof { lemma_index_bijection(self.width as int, self.height as int, 0, 0, index as int); }
        let row = index / self.width as usize;
        let col = index % self.width as usize;
        (row as u32, col as u32)
    }

    /// 1 when the cell at `(row, col)` is alive, 0 otherwise.
    fn alive_at(&self, row: u32, col: u32) -> (r: u8)
        requires
            self.wf(),
            row < self.spec_height(),
            col < self.spec_width(),
        ensures
            r == encoding(self.cell_at(row as int, col as int)),
    {
        let idx = self.to_index(row, col);
        self.cells[idx].encode()
    }

    /// The number of live cells among the eight neighbours of `(row, col)`,
    /// wrapping around the edges of the grid.
    pub fn living_neightbour_count(&self, row: u32, col: u32) -> (r: u8)
        requires
            self.wf(),
        ensures
            r == self.neighbour_count(row as int, col as int),
            r <= 8,
    {
        let (up, mid_r, down) = ring_steps(row, self.height);
        let (left, mid_c, right) = ring_steps(col, self.width);
        self.alive_at(up, left) + self.alive_at(up, mid_c) + self.alive_at(up, right)
            + self.alive_at(mid_r, left) + self.alive_at(mid_r, right)
            + self.alive_at(down, left) + self.alive_at(down, mid_c) + self.alive_at(down, right)
    }

    /// Marks alive each given `[row, col]` that lies inside the grid; a
    /// coordinate outside it is skipped. No cell is made dead.
    pub fn init_cells(&mut self, initial_cells: Vec<[u32; 2]>)
        requires
            old(self).wf(),
        ensures
            final(self).wf(),
            final(self).spec_width() == old(self).spec_width(),
            final(self).spec_height() == old(self).spec_height(),
            final(self).spec_cells() == seeded(
                old(self).spec_cells(),
                old(self).spec_width(),
                old(self).spec_height(),
                initial_cells@,
            ),
    {
        let ghost start = self.cells@;
        let ghost w = self.width as int;
        let ghost h = self.height as int;
        let mut k: usize = 0;
        while k < initial_cells.len()
            invariant
                self.wf(),
                self.spec_width() == w,
                self.spec_height() == h,
                k <= initial_cells@.len(),
                self.cells@ == seeded(start, w, h, initial_cells@.subrange(0, k as int)),
            decreases initial_cells@.len() - k,
        {
            let pair = initial_cells[k];
            let row = pair[0];
            let col = pair[1];
            let ghost done = initial_cells@.subrange(0, k as int);
            let ghost next = initial_cells@.subrange(0, k + 1);
            if row < self.height && col < self.width {
                let idx = self.to_index(row, col);
                self.cells.set(idx, Cell::Alive);
            }
            proof {
                assert forall|i: int| 0 <= i < start.len() implies
                    targets(next, w, h, i) == (targets(done, w, h, i) || (row < h && col < w
                        && index_of(w, row as int, col as int) == i)) by {
                    if targets(done, w, h, i) {
                        let j = choose|j: int|
                            0 <= j < done.len() && done[j][0] < h && done[j][1] < w
                                && #[trigger] index_of(w, done[j][0] as int, done[j][1] as int) == i;
                        assert(next[j] == done[j]);
                    }
                    if row < h && col < w && index_of(w, row as int, col as int) == i {
                        assert(next[k as int] == pair);
                    }
                    if targets(next, w, h, i) {
                        let j = choose|j: int|
                            0 <= j < next.len() && next[j][0] < h && next[j][1] < w
                                && #[trigger] index_of(w, next[j][0] as int, next[j][1] as int) == i;
                        if j < k {
                            assert(done[j] == next[j]);
                        }
                    }
                }
                assert(self.cells@ =~= seeded(start, w, h, next));
            }
            k = k + 1;
        }
        assert(initial_cells@.subrange(0, initial_cells@.len() as int) =~= initial_cells@);
    }

    /// Marks the cell at `(row, col)` alive when it lies inside the grid.
    pub fn init_single_cell(&mut self, row: u32, col: u32)
        requires
            old(self).wf(),
        ensures
            final(self).wf(),
            final(self).spec_width() == old(self).spec_width(),
            final(self).spec_height() == old(self).spec_height(),
            final(self).spec_cells() == seeded(
                old(self).spec_cells(),
                old(self).spec_width(),
                old(self).spec_height(),
                seq![[row, col]],
            ),
            row < old(self).spec_height() && col < old(self).spec_width() ==> final(self).spec_cells()
                == old(self).spec_cells().update(
                index_of(old(self).spec_width(), row as int, col as int),
                Cell::Alive,
            ),
            !(row < old(self).spec_height() && col < old(self).spec_width()) ==> final(self).spec_cells()
                == old(self).spec_cells(),
    {
        let ghost start = self.cells@;
        let ghost w = self.width as int;
        let ghost h = self.height as int;
        let seeds = vec![[row, col]];
        assert(seeds@ == seq![[row, col]]);
        self.init_cells(seeds);
        proof {
            let one = seq![[row, col]];
            if row < h && col < w {
                lemma_index_in_range(w, h, row as int, col as int);
                assert forall|i: int| 0 <= i < start.len() implies
                    targets(one, w, h, i) == (i == index_of(w, row as int, col as int)) by {
                    if i == index_of(w, row as int, col as int) {
                        assert(one[0] == [row, col]);
                    }
                }
                assert(self.cells@ =~= start.update(index_of(w, row as int, col as int), Cell::Alive));
            } else {
                assert forall|i: int| 0 <= i < start.len() implies !targets(one, w, h, i) by {
                    assert(one[0] == [row, col]);
                }
                assert(self.cells@ =~= start);
            }
        }
    }

    /// Advances the grid one generation. Every cell's next state is computed
    /// from the current grid before any cell is replaced.
    pub fn next_epoch(&mut self)
        requires
            old(self).wf(),
        ensures
            final(self).wf(),
            final(self).spec_width() == old(self).spec_width(),
            final(self).spec_height() == old(self).spec_height(),
            final(self).spec_cells() == old(self).next_generation(),
    {
        let n = self.cells.len();
        let mut next_cells: Vec<Cell> = Vec::new();
        let mut index: usize = 0;
        while index < n
            invariant
                self.wf(),
                n == self.spec_cells().len(),
                index <= n,
                next_cells@.len() == index,
                forall|i: int| 0 <= i < index ==> next_cells@[i] == #[trigger] self.next_generation()[i],
            decreases n - index,
        {
            let (row, col) = self.from_index(index);
            let living = self.living_neightbour_count(row, col);
            next_cells.push(hades(self.cells[index], living));
            index = index + 1;
        }
        assert(next_cells@ =~= self.next_generation());
        self.cells = next_cells;
    }

    /// Advances the grid one generation.
    pub fn tick(&mut self)
        requires
            old(self).wf(),
        ensures
            final(self).wf(),
            final(self).spec_width() == old(self).spec_width(),
            final(self).spec_height() == old(self).spec_height(),
            final(self).spec_cells() == old(self).next_generation(),
    {
        self.next_epoch();
    }

    /// The grid as text: one line of glyphs per row, top row first, rows
    /// separated by a newline, with no newline after the last row.
    pub fn render(&self) -> (r: String)
        requires
            self.wf(),
        ensures
            r@ == grid_text(self.spec_cells(), self.spec_width(), self.spec_height() as nat),
    {
        let ghost cells = self.cells@;
        let ghost w = self.width as int;
        let mut out = String::new();
        let mut row: u32 = 0;
        while row < self.height
            invariant
                self.wf(),
                cells == self.spec_cells(),
                w == self.spec_width(),
                row <= self.spec_height(),
                out@ == grid_text(cells, w, row as nat),
            decreases self.spec_height() - row,
        {
            if row > 0 {
                proof { reveal_strlit("\n"); }
                out.append("\n");
            }
            let ghost lead = out@;
            let mut col: u32 = 0;
            while col < self.width
                invariant
                    self.wf(),
                    cells == self.spec_cells(),
                    w == self.spec_width(),
                    row < self.spec_height(),
                    col <= w,
                    out@ == lead + row_text(cells, w, row as int).subrange(0, col as int),
                decreases w - col,
            {
                let idx = self.to_index(row, col);
                let glyph = self.cells[idx].to_string();
                out.append(glyph.as_str());
                proof {
                    assert(row_text(cells, w, row as int).subrange(0, col + 1) =~= row_text(
                        cells,
                        w,
                        row as int,
                    ).subrange(0, col as int).push(glyph_of(cells[idx as int])));
                }
                col = col + 1;
            }
            proof {
                assert(row_text(cells, w, row as int).subrange(0, w) =~= row_text(cells, w, row as int));
                if row == 0 {
                    assert(out@ =~= grid_text(cells, w, 1));
                } else {
                    assert(out@ =~= grid_text(cells, w, (row + 1) as nat));
                }
            }
            row = row + 1;
        }
        out
    }

    /// The cells encoded as numbers, row by row: 1 for a live cell, 0 for a dead one.
    pub fn cells_to_arr(&self) -> (r: Vec<u8>)
        ensures
            r@ == self.spec_cells().map_values(|c: Cell| encoding(c)),
    {
        let mut out: Vec<u8> = Vec::new();
        let mut i: usize = 0;
        while i < self.cells.len()
            invariant
                i <= self.cells@.len(),
                out@ == self.cells@.subrange(0, i as int).map_values(|c: Cell| encoding(c)),
            decreases self.cells@.len() - i,
        {
            out.push(self.cells[i].encode());
            proof {
                assert(self.cells@.subrange(0, i + 1) =~= self.cells@.subrange(0, i as int).push(self.cells@[i as int]));
            }
            i = i + 1;
        }
        assert(self.cells@.subrange(0, i as int) =~= self.cells@);
        out
    }
}

/// The positions one step before, at, and one step after `x` on a ring of `n`
/// positions.
fn ring_steps(x: u32, n: u32) -> (r: (u32, u32, u32))
    requires
        n >= 1,
    ensures
        r.0 == wrap(x as int, -1, n as int),
        r.1 == wrap(x as int, 0, n as int),
        r.2 == wrap(x as int, 1, n as int),
        r.0 < n,
        r.1 < n,
        r.2 < n,
{
    let at = x % n;
    let before = if at == 0 { n - 1 } else { at - 1 };
    let after = if at == n - 1 { 0 } else { at + 1 };
    proof {
        let xi = x as int;
        let ni = n as int;
        let q = xi / ni;
        vstd::arithmetic::div_mod::lemma_fundamental_div_mod(xi, ni);
        assert(xi == q * ni + at) by (nonlinear_arith)
            requires xi == ni * q + at as int;
        if at == 0 {
            assert(xi - 1 == (q - 1) * ni + (ni - 1)) by (nonlinear_arith)
                requires xi == q * ni;
            vstd::arithmetic::div_mod::lemma_fundamental_div_mod_converse(xi - 1, ni, q - 1, ni - 1);
        } else {
            vstd::arithmetic::div_mod::lemma_fundamental_div_mod_converse(xi - 1, ni, q, at - 1);
        }
        if at == n - 1 {
            assert(xi + 1 == (q + 1) * ni + 0) by (nonlinear_arith)
                requires xi == q * ni + ni - 1;
            vstd::arithmetic::div_mod::lemma_fundamental_div_mod_converse(xi + 1, ni, q + 1, 0);
        } else {
            vstd::arithmetic::div_mod::lemma_fundamental_div_mod_converse(xi + 1, ni, q, at + 1);
        }
    }
    (before, at, after)
}

/// Seeding is idempotent: seeding a grid again with the same coordinates
/// changes nothing, and a batch that names one coordinate twice gives the same
/// grid as a batch that names it once.
pub proof fn lemma_seeding_idempotent(
    cells: Seq<Cell>,
    width: int,
    height: int,
    seeds: Seq<[u32; 2]>,
    p: [u32; 2],
)
    ensures
        seeded(seeded(cells, width, height, seeds), width, height, seeds) == seeded(
            cells,
            width,
            height,
            seeds,
        ),
        seeded(cells, width, height, seq![p, p]) == seeded(cells, width, height, seq![p]),
{
    assert(seeded(seeded(cells, width, height, seeds), width, height, seeds) =~= seeded(
        cells,
        width,
        height,
        seeds,
    ));
    let twice = seq![p, p];
    let once = seq![p];
    assert forall|i: int| 0 <= i < cells.len() implies targets(twice, width, height, i) == targets(
        once,
        width,
        height,
        i,
    ) by {
        if targets(twice, width, height, i) {
            assert(once[0] == p && twice[0] == p && twice[1] == p);
            assert(index_of(width, once[0][0] as int, once[0][1] as int) == i);
        }
        if targets(once, width, height, i) {
            assert(once[0] == p && twice[0] == p);
            assert(index_of(width, twice[0][0] as int, twice[0][1] as int) == i);
        }
    }
    assert(seeded(cells, width, height, twice) =~= seeded(cells, width, height, once));
}

/// A coordinate inside a `width` by `height` grid has a flat index inside it.
proof fn lemma_index_in_range(width: int, height: int, row: int, col: int)
    requires
        width >= 1,
        0 <= row < height,
        0 <= col < width,
    ensures
        0 <= index_of(width, row, col) < width * height,
{
    assert(row * width + col < width * height) by (nonlinear_arith)
        requires 0 <= row < height, 0 <= col < width;
    assert(0 <= row * width) by (nonlinear_arith)
        requires 0 <= row, width >= 1;
}

/// Coordinates and flat indices of a `width` by `height` grid correspond one to
/// one: the index of a coordinate maps back to that coordinate, and every index
/// maps to a coordinate inside the grid whose index is the one started from.
pub proof fn lemma_index_bijection(width: int, height: int, row: int, col: int, index: int)
    requires
        width >= 1,
        height >= 1,
    ensures
        0 <= row < height && 0 <= col < width ==> {
            &&& index_of(width, row, col) / width == row
            &&& index_of(width, row, col) % width == col
        },
        0 <= index < width * height ==> {
            &&& 0 <= index / width < height
            &&& 0 <= index % width < width
            &&& index_of(width, index / width, index % width) == index
        },
{
    if 0 <= row < height && 0 <= col < width {
        vstd::arithmetic::div_mod::lemma_fundamental_div_mod_converse(
            row * width + col, width, row, col);
    }
    if 0 <= index < width * height {
        vstd::arithmetic::div_mod::lemma_fundamental_div_mod(index, width);
        let q = index / width;
        let r = index % width;
        assert(0 <= r < width);
        assert(width * q + r == index);
        assert(0 <= q < height) by (nonlinear_arith)
            requires width * q + r == index, 0 <= r < width, 0 <= index < width * height, width >= 1;
        assert(q * width == width * q) by (nonlinear_arith);
    }
}

} // verus!
