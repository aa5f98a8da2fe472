use crate::access::Access;
use crate::direction::Direction;
use crate::saved::{
    array_at, array_value, entry, integer_value, lemma_values_push, new_table, no_entries,
    spec_to_array, table_insert, table_model, table_value, value_as_integer, value_model,
    values_model, Saved,
};
use vstd::prelude::*;

verus! {

/// The number of columns of the tile grid.
pub const NUM_COLS: i32 = 9;

/// The number of rows of the tile grid.
pub const NUM_ROWS: i32 = 7;

/// The number of cells of the tile grid.
pub const NUM_CELLS: usize = 63;

/// The tiles at the start, row by row: -1 is a gap, 0 to 2 a kind of tile.
pub open spec fn spec_initial_grid() -> Seq<i8> {
    seq![
        2i8, 1, 2, 1, 2, -1i8, 2, 0, 1,
        -1i8, -1i8, 1, 2, 0, -1i8, -1i8, 2, 0,
        0, 1, 2, 1, -1i8, 0, 1, 1, 2,
        2, 0, -1i8, -1i8, 2, -1i8, -1i8, -1i8, 1,
        2, 1, 0, 2, -1i8, 1, 2, 2, 0,
        0, -1i8, -1i8, -1i8, 1, 0, -1i8, 0, 1,
        1, 0, 2, 2, 0, 1, -1i8, 2, 2,
    ]
}

/// The tiles of the solved puzzle, row by row.
pub open spec fn spec_solved_grid() -> Seq<i8> {
    seq![
        0i8, 0, 0, 1, 1, -1i8, 2, 2, 2,
        -1i8, -1i8, 0, 1, 1, -1i8, -1i8, 2, 2,
        2, 2, 2, 0, -1i8, 0, 1, 1, 1,
        2, 2, -1i8, -1i8, 0, -1i8, -1i8, -1i8, 1,
        2, 2, 2, 0, -1i8, 0, 1, 1, 1,
        1, -1i8, -1i8, -1i8, 2, 2, -1i8, 0, 0,
        1, 1, 1, 2, 2, 2, -1i8, 0, 0,
    ]
}

/// True for the two directions that shift a row.
pub open spec fn along_row(dir: Direction) -> bool {
    dir == Direction::East || dir == Direction::West
}

/// True for the two directions that move tiles towards higher columns or
/// rows.
pub open spec fn forward(dir: Direction) -> bool {
    dir == Direction::East || dir == Direction::South
}

/// The number of cells in a rank that `dir` shifts: a row or a column.
pub open spec fn rank_len(dir: Direction) -> int {
    if along_row(dir) { 9 } else { 7 }
}

/// The number of ranks that `dir` can shift.
pub open spec fn rank_count(dir: Direction) -> int {
    if along_row(dir) { 7 } else { 9 }
}

/// The index in the grid of cell `k` of rank `rank`.
pub open spec fn rank_index(dir: Direction, rank: int, k: int) -> int {
    if along_row(dir) { rank * 9 + k } else { k * 9 + rank }
}

/// The cells of rank `rank`, in the order of their columns or rows.
pub open spec fn rank_line(grid: Seq<i8>, dir: Direction, rank: int) -> Seq<i8> {
    Seq::new(rank_len(dir) as nat, |k: int| grid[rank_index(dir, rank, k)])
}

/// The tiles of a line in order, the gaps left out.
pub open spec fn tiles_of(line: Seq<i8>) -> Seq<i8>
    decreases line.len(),
{
    if line.len() == 0 {
        line
    } else if line.last() < 0 {
        tiles_of(line.drop_last())
    } else {
        tiles_of(line.drop_last()).push(line.last())
    }
}

/// The tiles moved round by one place: forwards the last comes first,
/// backwards the first goes last.
pub open spec fn rotated(tiles: Seq<i8>, fwd: bool) -> Seq<i8> {
    if tiles.len() == 0 {
        tiles
    } else if fwd {
        seq![tiles.last()] + tiles.drop_last()
    } else {
        tiles.subrange(1, tiles.len() as int).push(tiles[0])
    }
}

/// The line after its tiles have moved round by one place among the cells
/// that hold tiles. A gap stays a gap.
pub open spec fn shifted_line(line: Seq<i8>, fwd: bool) -> Seq<i8> {
    Seq::new(
        line.len(),
        |k: int|
            if line[k] < 0 {
                line[k]
            } else {
                rotated(tiles_of(line), fwd)[tiles_of(line.subrange(0, k)).len() as int]
            },
    )
}

/// True if `i` is the index of a cell of rank `rank`.
pub open spec fn in_rank(dir: Direction, rank: int, i: int) -> bool {
    if along_row(dir) {
        rank * 9 <= i < rank * 9 + 9
    } else {
        0 <= i < 63 && i % 9 == rank
    }
}

/// The place within rank `rank` of the cell with index `i`.
pub open spec fn place_in_rank(dir: Direction, rank: int, i: int) -> int {
    if along_row(dir) { i - rank * 9 } else { i / 9 }
}

/// The grid after the tiles of rank `rank` have moved round by one place
/// in direction `dir`; unchanged where there is no such rank.
pub open spec fn shifted_grid(grid: Seq<i8>, dir: Direction, rank: int) -> Seq<i8> {
    if 0 <= rank < rank_count(dir) {
        let line = shifted_line(rank_line(grid, dir, rank), forward(dir));
        Seq::new(
            grid.len(),
            |i: int|
                if in_rank(dir, rank, i) {
                    line[place_in_rank(dir, rank, i)]
                } else {
                    grid[i]
                },
        )
    } else {
        grid
    }
}

/// True if the grid has 63 cells, each a gap or a tile of a known kind.
pub open spec fn grid_ok(grid: Seq<i8>) -> bool {
    &&& grid.len() == 63
    &&& forall|i: int| 0 <= i < 63 ==> -1 <= #[trigger] grid[i] < 3
}

/// The mathematical value of the state of the tile puzzle.
pub struct WreckedModel {
    pub access: Access,
    pub grid: Seq<i8>,
}

/// Returns the tiles at the start.
pub fn initial_grid() -> (r: Vec<i8>)
    ensures
        r@ == spec_initial_grid(),
        grid_ok(r@),
{
    let r: Vec<i8> = vec![
        2, 1, 2, 1, 2, -1, 2, 0, 1,
        -1, -1, 1, 2, 0, -1, -1, 2, 0,
        0, 1, 2, 1, -1, 0, 1, 1, 2,
        2, 0, -1, -1, 2, -1, -1, -1, 1,
        2, 1, 0, 2, -1, 1, 2, 2, 0,
        0, -1, -1, -1, 1, 0, -1, 0, 1,
        1, 0, 2, 2, 0, 1, -1, 2, 2,
    ];
    proof {
        assert(r@ =~= spec_initial_grid());
    }
    r
}

/// Returns the tiles of the solved puzzle.
pub fn solved_grid() -> (r: Vec<i8>)
    ensures
        r@ == spec_solved_grid(),
        grid_ok(r@),
{
    let r: Vec<i8> = vec![
        0, 0, 0, 1, 1, -1, 2, 2, 2,
        -1, -1, 0, 1, 1, -1, -1, 2, 2,
        2, 2, 2, 0, -1, 0, 1, 1, 1,
        2, 2, -1, -1, 0, -1, -1, -1, 1,
        2, 2, 2, 0, -1, 0, 1, 1, 1,
        1, -1, -1, -1, 2, 2, -1, 0, 0,
        1, 1, 1, 2, 2, 2, -1, 0, 0,
    ];
    proof {
        assert(r@ =~= spec_solved_grid());
    }
    r
}

/// Returns true if the two grids hold the same tiles in the same cells.
fn same_tiles(a: &Vec<i8>, b: &Vec<i8>) -> (r: bool)
    ensures
        r == (a@ == b@),
{
    if a.len() != b.len() {
        return false;
    }
    let mut i: usize = 0;
    while i < a.len()
        invariant
            a@.len() == b@.len(),
            i <= a@.len(),
            forall|j: int| 0 <= j < i ==> a@[j] == b@[j],
        decreases a@.len() - i,
    {
        if a[i] != b[i] {
            return false;
        }
        i += 1;
    }
    proof {
        assert(a@ =~= b@);
    }
    true
}

/// The tiles of the first `k` cells of a line are the first of the tiles
/// of the whole line.
pub proof fn lemma_tiles_prefix(line: Seq<i8>, k: int)
    requires
        0 <= k <= line.len(),
    ensures
        tiles_of(line.subrange(0, k)).len() <= tiles_of(line).len(),
        tiles_of(line.subrange(0, k)) == tiles_of(line).subrange(
            0,
            tiles_of(line.subrange(0, k)).len() as int,
        ),
        forall|j: int| 0 <= j < tiles_of(line).len() ==> 0 <= #[trigger] tiles_of(line)[j],
        k < line.len() && line[k] >= 0 ==> tiles_of(line.subrange(0, k)).len() < tiles_of(
            line,
        ).len() && tiles_of(line)[tiles_of(line.subrange(0, k)).len() as int] == line[k],
        k < line.len() ==> tiles_of(line.subrange(0, k + 1)) == (if line[k] < 0 {
            tiles_of(line.subrange(0, k))
        } else {
            tiles_of(line.subrange(0, k)).push(line[k])
        }),
    decreases line.len(),
{
    if k < line.len() {
        assert(line.subrange(0, k + 1).drop_last() =~= line.subrange(0, k));
    }
    if k == line.len() {
        assert(line.subrange(0, k) =~= line);
        if line.len() > 0 {
            lemma_tiles_prefix(line.drop_last(), k - 1);
        }
    } else {
        let rest = line.drop_last();
        assert(line.subrange(0, k) =~= rest.subrange(0, k));
        lemma_tiles_prefix(rest, k);
        if k + 1 < line.len() {
            assert(line.subrange(0, k + 1) =~= rest.subrange(0, k + 1));
        } else {
            assert(line.subrange(0, k + 1) =~= line);
        }
        assert(tiles_of(line.subrange(0, k)) =~= tiles_of(line).subrange(
            0,
            tiles_of(line.subrange(0, k)).len() as int,
        ));
    }
}

/// The state of the tile puzzle: the player's progress and a grid of tiles
/// of three kinds, with gaps, whose rows and columns can be shifted.
pub struct WreckedState {
    access: Access,
    grid: Vec<i8>,
    is_initial: bool,
}

impl View for WreckedState {
    type V = WreckedModel;

    closed spec fn view(&self) -> WreckedModel {
        WreckedModel { access: self.access, grid: self.grid@ }
    }
}

impl WreckedState {
    /// The invariant of the type: the grid has 63 cells, each a gap or a
    /// tile of a known kind.
    pub closed spec fn wf(&self) -> bool {
        &&& grid_ok(self.grid@)
        &&& self.is_initial == (self.grid@ == spec_initial_grid())
    }

    /// What the invariant says of the value: the grid has 63 cells, each a
    /// gap or a tile of a known kind.
    pub proof fn lemma_wf(&self)
        requires
            self.wf(),
        ensures
            grid_ok(self@.grid),
            self@.grid.len() == 63,
    {
    }

    /// Makes the state that holds `grid`, a grid of 63 cells each of which
    /// is a gap or a tile of a known kind.
    pub fn with_grid(access: Access, grid: Vec<i8>) -> (s: WreckedState)
        requires
            grid_ok(grid@),
        ensures
            s.wf(),
            s@ == (WreckedModel { access, grid: grid@ }),
    {
        let start = initial_grid();
        let is_initial = same_tiles(&grid, &start);
        WreckedState { access, grid, is_initial }
    }

    /// Returns the player's progress.
    pub fn access(&self) -> (r: Access)
        ensures
            r == self@.access,
    {
        self.access
    }

    /// Returns the tiles, row by row.
    pub fn grid(&self) -> (r: &Vec<i8>)
        ensures
            r@ == self@.grid,
    {
        &self.grid
    }

    /// Returns true unless the player has never been here.
    pub fn is_visited(&self) -> (r: bool)
        ensures
            r == self@.access.spec_is_visited(),
    {
        self.access.is_visited()
    }

    /// Takes note that the player has come here.
    pub fn visit(&mut self)
        requires
            old(self).wf(),
        ensures
            final(self).wf(),
            final(self)@ == (WreckedModel { access: old(self)@.access.spec_visited(), ..old(self)@ }),
    {
        self.access.visit();
    }

    /// Returns true if the puzzle is solved.
    pub fn is_solved(&self) -> (r: bool)
        ensures
            r == (self@.access == Access::Solved),
    {
        self.access == Access::Solved
    }

    /// Sets the puzzle back to its start to be played again.
    pub fn replay(&mut self)
        ensures
            final(self).wf(),
            final(self)@ == (WreckedModel { access: Access::BeginReplay, grid: spec_initial_grid() }),
    {
        self.access = Access::BeginReplay;
        self.grid = initial_grid();
        self.is_initial = true;
    }

    /// Returns true if the tiles lie as at the start.
    pub fn is_in_initial_configuration(&self) -> (r: bool)
        requires
            self.wf(),
        ensures
            r == (self@.grid == spec_initial_grid()),
    {
        self.is_initial
    }

    /// Lays the tiles as at the start.
    pub fn reset(&mut self)
        ensures
            final(self).wf(),
            final(self)@ == (WreckedModel { access: old(self)@.access, grid: spec_initial_grid() }),
    {
        self.grid = initial_grid();
        self.is_initial = true;
    }

    /// Lays the tiles as in the solved puzzle and marks it solved.
    pub fn solve(&mut self)
        ensures
            final(self).wf(),
            final(self)@ == (WreckedModel { access: Access::Solved, grid: spec_solved_grid() }),
    {
        self.access = Access::Solved;
        self.grid = solved_grid();
        self.is_initial = false;
        proof {
            assert(spec_solved_grid()[0] != spec_initial_grid()[0]);
        }
    }

    /// Returns the kind of the tile in column `col` and row `row`; `None`
    /// for a gap and for a cell off the grid.
    pub fn tile_at(&self, col: i32, row: i32) -> (r: Option<usize>)
        requires
            self.wf(),
        ensures
            r == (if 0 <= col < 9 && 0 <= row < 7 && self@.grid[row * 9 + col] >= 0 {
                Some(self@.grid[row * 9 + col] as usize)
            } else {
                None
            }),
    {
        if col < 0 || col >= NUM_COLS || row < 0 || row >= NUM_ROWS {
            None
        } else {
            let index = (row * NUM_COLS + col) as usize;
            let value = self.grid[index];
            if value < 0 {
                None
            } else {
                Some(value as usize)
            }
        }
    }

    /// Moves the tiles of one rank round by one place: those of row `rank`
    /// for east and west, those of column `rank` for south and north.
    /// Towards east or south each tile goes to the next cell of the rank
    /// that holds a tile and the last tile comes to the first such cell;
    /// towards west or north the other way round. Gaps stay where they are.
    /// Nothing moves where there is no such rank. The puzzle is marked
    /// solved if the tiles then lie as in the solved puzzle.
    pub fn shift_tiles(&mut self, dir: Direction, rank: i32)
        requires
            old(self).wf(),
        ensures
            final(self).wf(),
            final(self)@.grid == shifted_grid(old(self)@.grid, dir, rank as int),
            final(self)@.access == (if final(self)@.grid == spec_solved_grid() {
                Access::Solved
            } else {
                old(self)@.access
            }),
    {
        let by_row = match dir {
            Direction::East | Direction::West => true,
            Direction::South | Direction::North => false,
        };
        let fwd = match dir {
            Direction::East | Direction::South => true,
            Direction::West | Direction::North => false,
        };
        let count: i32 = if by_row { NUM_ROWS } else { NUM_COLS };
        let len: usize = if by_row { 9 } else { 7 };
        if rank >= 0 && rank < count {
            let rank_u = rank as usize;
            let ghost line = rank_line(old(self).grid@, dir, rank as int);
            let mut tiles: Vec<i8> = Vec::new();
            let mut k: usize = 0;
            while k < len
                invariant
                    k <= len,
                    len == rank_len(dir),
                    by_row == along_row(dir),
                    0 <= rank_u < rank_count(dir),
                    self.grid@ == old(self).grid@,
                    self.access == old(self).access,
                    grid_ok(self.grid@),
                    line == rank_line(self.grid@, dir, rank_u as int),
                    tiles@ == tiles_of(line.subrange(0, k as int)),
                decreases len - k,
            {
                let index = if by_row { rank_u * 9 + k } else { k * 9 + rank_u };
                let value = self.grid[index];
                proof {
                    lemma_tiles_prefix(line, k as int);
                    assert(line[k as int] == value);
                }
                if value >= 0 {
                    tiles.push(value);
                }
                k += 1;
            }
            proof {
                assert(line.subrange(0, len as int) =~= line);
                lemma_tiles_prefix(line, 0);
            }
            let n = tiles.len();
            if n > 0 {
                if fwd {
                    let tile = tiles.pop().unwrap();
                    tiles.insert(0, tile);
                    proof {
                        assert(tiles@ =~= rotated(tiles_of(line), fwd));
                    }
                } else {
                    let tile = tiles.remove(0);
                    tiles.push(tile);
                    proof {
                        assert(tiles@ =~= rotated(tiles_of(line), fwd));
                    }
                }
            }
            let ghost moved = rotated(tiles_of(line), fwd);
            assert(tiles@ == moved);
            assert(moved.len() == tiles_of(line).len());
            assert(forall|j: int| 0 <= j < moved.len() ==> 0 <= #[trigger] moved[j] < 3) by {
                assert forall|j: int| 0 <= j < tiles_of(line).len() implies 0 <= #[trigger] tiles_of(line)[j] < 3 by {
                    lemma_tile_is_cell(line, j);
                }
            }
            let total = tiles.len();
            let mut j: usize = 0;
            k = 0;
            while k < len
                invariant
                    total == tiles@.len(),
                    k <= len,
                    len == rank_len(dir),
                    by_row == along_row(dir),
                    0 <= rank_u < rank_count(dir),
                    grid_ok(old(self).grid@),
                    grid_ok(self.grid@),
                    self.access == old(self).access,
                    line == rank_line(old(self).grid@, dir, rank_u as int),
                    tiles@ == moved,
                    moved == rotated(tiles_of(line), fwd),
                    moved.len() == tiles_of(line).len(),
                    forall|j: int| 0 <= j < moved.len() ==> 0 <= #[trigger] moved[j] < 3,
                    j == tiles_of(line.subrange(0, k as int)).len(),
                    forall|i: int|
                        0 <= i < 63 && !in_rank(dir, rank_u as int, i) ==> self.grid@[i] == old(
                            self,
                        ).grid@[i],
                    forall|m: int|
                        0 <= m < k ==> self.grid@[#[trigger] rank_index(dir, rank_u as int, m)]
                            == shifted_line(line, fwd)[m],
                    forall|m: int|
                        k <= m < len ==> self.grid@[#[trigger] rank_index(dir, rank_u as int, m)]
                            == line[m],
                decreases len - k,
            {
                let index = if by_row { rank_u * 9 + k } else { k * 9 + rank_u };
                proof {
                    lemma_tiles_prefix(line, k as int);
                    assert(index == rank_index(dir, rank_u as int, k as int));
                    assert(self.grid@[index as int] == line[k as int]);
                }
                if self.grid[index] >= 0 {
                    assert(j < tiles@.len());
                    let tile = tiles[j];
                    self.grid.set(index, tile);
                    j += 1;
                    proof {
                        assert forall|m: int| 0 <= m < len && m != k implies rank_index(
                            dir,
                            rank_u as int,
                            m,
                        ) != index by {}
                    }
                }
                k += 1;
            }
            proof {
                let want = shifted_grid(old(self).grid@, dir, rank as int);
                assert forall|i: int| 0 <= i < 63 implies self.grid@[i] == want[i] by {
                    if in_rank(dir, rank as int, i) {
                        let m = place_in_rank(dir, rank as int, i);
                        assert(i == rank_index(dir, rank_u as int, m));
                    }
                }
                assert(self.grid@ =~= want);
            }
        } else {
            proof {
                assert(self.grid@ == shifted_grid(old(self).grid@, dir, rank as int));
            }
        }
        let start = initial_grid();
        self.is_initial = same_tiles(&self.grid, &start);
        let done = solved_grid();
        if same_tiles(&self.grid, &done) {
            self.access = Access::Solved;
        }
    }
}

impl Default for WreckedState {
    fn default() -> (s: WreckedState)
        ensures
            s.wf(),
            s@ == (WreckedModel { access: Access::Unvisited, grid: spec_initial_grid() }),
    {
        WreckedState { access: Access::Unvisited, grid: initial_grid(), is_initial: true }
    }
}

/// Each tile of a line is one of its cells, so it is in the cells' range.
pub proof fn lemma_tile_is_cell(line: Seq<i8>, j: int)
    requires
        0 <= j < tiles_of(line).len(),
    ensures
        exists|k: int| 0 <= k < line.len() && #[trigger] line[k] == tiles_of(line)[j],
        tiles_of(line)[j] >= 0,
    decreases line.len(),
{
    if line.len() > 0 {
        let rest = line.drop_last();
        if line.last() >= 0 && j == tiles_of(rest).len() {
            assert(line[line.len() - 1] == tiles_of(line)[j]);
        } else {
            lemma_tile_is_cell(rest, j);
            let k = choose|k: int| 0 <= k < rest.len() && #[trigger] rest[k] == tiles_of(rest)[j];
            assert(line[k] == tiles_of(line)[j]);
        }
    }
}

/// Moving tiles round by one place and then back gives the tiles as they
/// were.
pub proof fn lemma_rotated_back(tiles: Seq<i8>, fwd: bool)
    ensures
        rotated(tiles, fwd).len() == tiles.len(),
        rotated(rotated(tiles, fwd), !fwd) == tiles,
{
    assert(rotated(rotated(tiles, fwd), !fwd) =~= tiles);
}

/// A shifted line has its gaps where the line had them, and its tiles are
/// those of the line moved round by one place.
pub proof fn lemma_shifted_line(line: Seq<i8>, fwd: bool, k: int)
    requires
        0 <= k <= line.len(),
    ensures
        shifted_line(line, fwd).len() == line.len(),
        forall|m: int| 0 <= m < line.len() ==> (#[trigger] shifted_line(line, fwd)[m] < 0) == (line[m] < 0),
        tiles_of(shifted_line(line, fwd).subrange(0, k)) == rotated(tiles_of(line), fwd).subrange(
            0,
            tiles_of(line.subrange(0, k)).len() as int,
        ),
    decreases k,
{
    let out = shifted_line(line, fwd);
    let tiles = tiles_of(line);
    let moved = rotated(tiles, fwd);
    lemma_tiles_prefix(line, 0);
    assert forall|m: int| 0 <= m < line.len() implies (#[trigger] out[m] < 0) == (line[m] < 0) by {
        lemma_tiles_prefix(line, m);
        if line[m] >= 0 {
            let c = tiles_of(line.subrange(0, m)).len() as int;
            assert(0 <= c < tiles.len());
            if fwd {
                if c > 0 {
                    assert(moved[c] == tiles[c - 1]);
                }
            } else {
                if c + 1 < tiles.len() {
                    assert(moved[c] == tiles[c + 1]);
                }
            }
        }
    }
    if k == 0 {
        assert(out.subrange(0, 0) =~= Seq::<i8>::empty());
        assert(line.subrange(0, 0) =~= Seq::<i8>::empty());
        assert(tiles_of(out.subrange(0, k)) =~= moved.subrange(0, 0));
    } else {
        lemma_shifted_line(line, fwd, k - 1);
        lemma_tiles_prefix(line, k - 1);
        lemma_tiles_prefix(out, k - 1);
        let c = tiles_of(line.subrange(0, k - 1)).len() as int;
        if line[k - 1] >= 0 {
            assert(tiles_of(out.subrange(0, k)) =~= moved.subrange(0, c + 1));
        }
    }
}

/// Shifting a line one way and then the other way gives the line back.
pub proof fn lemma_line_shift_undone(line: Seq<i8>, fwd: bool)
    ensures
        shifted_line(shifted_line(line, fwd), !fwd) == line,
{
    let out = shifted_line(line, fwd);
    let back = shifted_line(out, !fwd);
    lemma_shifted_line(line, fwd, line.len() as int);
    assert(out.subrange(0, out.len() as int) =~= out);
    assert(line.subrange(0, line.len() as int) =~= line);
    lemma_rotated_back(tiles_of(line), fwd);
    assert(tiles_of(out) =~= rotated(tiles_of(line), fwd));
    assert forall|k: int| 0 <= k < line.len() implies back[k] == line[k] by {
        lemma_shifted_line(line, fwd, k);
        lemma_tiles_prefix(line, k);
        if line[k] >= 0 {
            assert(tiles_of(out.subrange(0, k)).len() == tiles_of(line.subrange(0, k)).len());
        }
    }
    assert(back =~= line);
}

/// Shifting a rank and then shifting the same rank the opposite way gives
/// back the grid as it was, and no shift moves a gap or fills one.
pub proof fn lemma_shift_undone(grid: Seq<i8>, dir: Direction, rank: int)
    requires
        grid.len() == 63,
    ensures
        shifted_grid(grid, dir, rank).len() == 63,
        shifted_grid(shifted_grid(grid, dir, rank), dir.spec_opposite(), rank) == grid,
        forall|i: int| 0 <= i < 63 ==> (#[trigger] shifted_grid(grid, dir, rank)[i] < 0) == (grid[i] < 0),
{
    let there = shifted_grid(grid, dir, rank);
    let opp = dir.spec_opposite();
    let back = shifted_grid(there, opp, rank);
    if 0 <= rank < rank_count(dir) {
        let line = rank_line(grid, dir, rank);
        let out = shifted_line(line, forward(dir));
        lemma_shifted_line(line, forward(dir), 0);
        lemma_line_shift_undone(line, forward(dir));
        assert forall|k: int| 0 <= k < rank_len(dir) implies in_rank(dir, rank, rank_index(dir, rank, k))
            && place_in_rank(dir, rank, rank_index(dir, rank, k)) == k && 0 <= rank_index(
            dir,
            rank,
            k,
        ) < 63 by {}
        assert(rank_line(there, opp, rank) =~= out);
        assert forall|i: int| 0 <= i < 63 implies back[i] == grid[i] && ((#[trigger] there[i] < 0) == (
        grid[i] < 0)) by {
            if in_rank(dir, rank, i) {
                let k = place_in_rank(dir, rank, i);
                assert(i == rank_index(dir, rank, k));
                assert(0 <= k < rank_len(dir));
                assert(there[i] == out[k]);
                assert(line[k] == grid[i]);
            }
        }
        assert(back =~= grid);
    }
}

/// The tiles that a saved list holds: its integers from -1 to 2, in
/// their order.
pub open spec fn tiles_read(saved: Seq<Saved>) -> Seq<i8>
    decreases saved.len(),
{
    if saved.len() == 0 {
        Seq::empty()
    } else {
        match saved.last() {
            Saved::Integer(i) => if -1 <= i < 3 {
                tiles_read(saved.drop_last()).push(i as i8)
            } else {
                tiles_read(saved.drop_last())
            },
            _ => tiles_read(saved.drop_last()),
        }
    }
}

/// How many cells of the grid hold `tile`.
pub open spec fn count_of(grid: Seq<i8>, tile: int) -> nat
    decreases grid.len(),
{
    if grid.len() == 0 {
        0
    } else if grid.last() == tile {
        count_of(grid.drop_last(), tile) + 1
    } else {
        count_of(grid.drop_last(), tile)
    }
}

/// True if the grid can have come from the grid at the start by shifts: it
/// has 63 cells, its gaps where that grid has them, and as many tiles of
/// each kind.
pub open spec fn fits(grid: Seq<i8>) -> bool {
    &&& grid.len() == 63
    &&& forall|i: int| 0 <= i < 63 ==> (#[trigger] grid[i] < 0) == (spec_initial_grid()[i] < 0)
    &&& count_of(grid, 0) == count_of(spec_initial_grid(), 0)
    &&& count_of(grid, 1) == count_of(spec_initial_grid(), 1)
    &&& count_of(grid, 2) == count_of(spec_initial_grid(), 2)
}

/// The grid that a saved table stands for: the tiles under "grid" if they
/// fit, else the grid at the start.
pub open spec fn grid_restored(saved: Map<Seq<char>, Saved>) -> Seq<i8> {
    let tiles = tiles_read(spec_to_array(entry(saved, "grid"@)));
    if fits(tiles) {
        tiles
    } else {
        spec_initial_grid()
    }
}

/// The list that saves the tiles.
pub open spec fn tiles_saved(grid: Seq<i8>) -> Saved {
    Saved::Array(Seq::new(grid.len(), |i: int| Saved::Integer(grid[i] as int)))
}

/// The table that saves the state: the progress under "access", and
/// under "grid" the tiles unless they lie as at the start.
pub open spec fn wrecked_saved(m: WreckedModel) -> Saved {
    let base = no_entries().insert("access"@, Saved::Text(m.access.spec_key()));
    if m.grid == spec_initial_grid() {
        Saved::Table(base)
    } else {
        Saved::Table(base.insert("grid"@, tiles_saved(m.grid)))
    }
}

/// Returns how many cells of the grid hold `tile`.
fn count_tiles(grid: &Vec<i8>, tile: i8) -> (n: usize)
    ensures
        n == count_of(grid@, tile as int),
{
    let mut n: usize = 0;
    let mut i: usize = 0;
    proof {
        assert(grid@.subrange(0, 0) =~= Seq::<i8>::empty());
    }
    while i < grid.len()
        invariant
            i <= grid@.len(),
            n <= i,
            n == count_of(grid@.subrange(0, i as int), tile as int),
        decreases grid@.len() - i,
    {
        proof {
            assert(grid@.subrange(0, i + 1).drop_last() =~= grid@.subrange(0, i as int));
        }
        if grid[i] == tile {
            n += 1;
        }
        i += 1;
    }
    proof {
        assert(grid@.subrange(0, grid@.len() as int) =~= grid@);
    }
    n
}

/// Returns true if the grid has its gaps where the grid at the start has
/// them, and as many tiles of each kind.
fn grid_fits(grid: &Vec<i8>) -> (r: bool)
    ensures
        r == fits(grid@),
{
    let start = initial_grid();
    if grid.len() != 63 {
        return false;
    }
    let mut i: usize = 0;
    while i < 63
        invariant
            i <= 63,
            grid@.len() == 63,
            start@ == spec_initial_grid(),
            forall|j: int| 0 <= j < i ==> (#[trigger] grid@[j] < 0) == (start@[j] < 0),
        decreases 63 - i,
    {
        if (grid[i] < 0) != (start[i] < 0) {
            return false;
        }
        i += 1;
    }
    count_tiles(grid, 0) == count_tiles(&start, 0) && count_tiles(grid, 1) == count_tiles(&start, 1)
        && count_tiles(grid, 2) == count_tiles(&start, 2)
}

/// A grid that fits has only gaps and tiles of a known kind.
proof fn lemma_read_in_range(saved: Seq<Saved>)
    ensures
        forall|i: int| 0 <= i < tiles_read(saved).len() ==> -1 <= #[trigger] tiles_read(saved)[i] < 3,
    decreases saved.len(),
{
    if saved.len() > 0 {
        let rest = tiles_read(saved.drop_last());
        lemma_read_in_range(saved.drop_last());
        assert forall|i: int| 0 <= i < tiles_read(saved).len() implies -1 <= #[trigger] tiles_read(
            saved,
        )[i] < 3 by {
            if i < rest.len() {
                assert(tiles_read(saved)[i] == rest[i]);
            }
        }
    }
}

impl WreckedState {
    /// Returns the state that `table` stands for: the progress under
    /// "access", and the tiles under "grid" if they can have come from the
    /// start by shifts, else the tiles at the start.
    #[verifier::loop_isolation(false)]
    pub fn from_toml(table: toml::value::Table) -> (s: WreckedState)
        ensures
            s.wf(),
            s@ == (WreckedModel {
                access: Access::from_table(table_model(table)),
                grid: grid_restored(table_model(table)),
            }),
    {
        let ghost saved = spec_to_array(entry(table_model(table), "grid"@));
        let mut grid: Vec<i8> = Vec::new();
        match array_at(&table, "grid") {
            Some(list) => {
                let mut i: usize = 0;
                proof {
                    assert(saved.subrange(0, 0) =~= Seq::<Saved>::empty());
                }
                while i < list.len()
                    invariant
                        i <= list@.len(),
                        values_model(list@) == saved,
                        grid@ == tiles_read(saved.subrange(0, i as int)),
                    decreases list@.len() - i,
                {
                    proof {
                        assert(saved.subrange(0, i + 1).drop_last() =~= saved.subrange(0, i as int));
                        assert(saved[i as int] == value_model(list@[i as int]));
                    }
                    match value_as_integer(&list[i]) {
                        Some(tile) => {
                            if -1 <= tile && tile < 3 {
                                grid.push(tile as i8);
                            }
                        },
                        None => {},
                    }
                    i += 1;
                }
                proof {
                    assert(saved.subrange(0, list@.len() as int) =~= saved);
                }
            },
            None => {},
        }
        proof {
            lemma_read_in_range(saved);
        }
        if !grid_fits(&grid) {
            grid = initial_grid();
        }
        let access = Access::read_from(&table);
        WreckedState::with_grid(access, grid)
    }

    /// Returns the table that saves the state: the progress under "access",
    /// and under "grid" the tiles, unless they lie as at the start.
    #[verifier::loop_isolation(false)]
    pub fn to_toml(&self) -> (v: toml::Value)
        requires
            self.wf(),
        ensures
            value_model(v) == wrecked_saved(self@),
    {
        let mut table = new_table();
        table_insert(&mut table, "access", self.access.to_toml());
        if !self.is_initial {
            let mut list: Vec<toml::Value> = Vec::new();
            let mut i: usize = 0;
            while i < self.grid.len()
                invariant
                    i <= self.grid@.len(),
                    values_model(list@) == Seq::new(i as nat, |j: int| Saved::Integer(self.grid@[j] as int)),
                decreases self.grid@.len() - i,
            {
                let ghost before = list@;
                let saved = integer_value(self.grid[i] as i64);
                list.push(saved);
                proof {
                    lemma_values_push(before, saved);
                    assert(values_model(list@) =~= Seq::new(
                        (i + 1) as nat,
                        |j: int| Saved::Integer(self.grid@[j] as int),
                    ));
                }
                i += 1;
            }
            table_insert(&mut table, "grid", array_value(list));
        }
        table_value(table)
    }
}

} // verus!
