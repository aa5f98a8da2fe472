use crate::access::Access;
use crate::column::{
    column_at_start, columns_at_start, columns_ok, columns_restored, columns_saved, columns_solved,
    rotated_columns, with_positions, Column, ColumnModel, Columns,
};
use crate::location::Location;
use crate::saved::{
    entry, new_table, no_entries, pop_array, spec_to_array, spec_to_table, table_insert,
    table_value, to_table, value_model, Saved,
};
use vstd::prelude::*;

verus! {

/// The fourteen columns of the puzzle, in two rows of seven, each in its
/// starting position. A column's links name the other columns that turn
/// with it; the column itself is not among them, since it turns by the
/// rotation asked for.
pub open spec fn spec_icyem_columns() -> Seq<ColumnModel> {
    seq![
        column_at_start("ELF"@, -1, 1, seq![(7usize, 1i32), (1usize, 1i32), (8usize, 1i32), (6usize, -1i32), (13usize, -1i32)]),
        column_at_start("HIDE"@, -2, 1, seq![(0usize, -1i32), (7usize, -1i32), (8usize, 1i32), (2usize, -1i32), (9usize, -1i32)]),
        column_at_start("SCAR"@, -2, 0, seq![(9usize, 1i32), (4usize, 1i32), (11usize, 1i32)]),
        column_at_start("RUNS"@, -2, 2, seq![(0usize, -1i32), (7usize, -1i32), (10usize, 1i32), (6usize, -1i32), (13usize, -1i32)]),
        column_at_start("FLED"@, -2, 2, seq![(2usize, 1i32), (9usize, 1i32), (11usize, 1i32)]),
        column_at_start("BURN"@, -2, 3, seq![(4usize, -1i32), (11usize, -1i32), (12usize, 1i32), (6usize, -1i32), (13usize, -1i32)]),
        column_at_start("SOL"@, -1, 1, seq![(0usize, -1i32), (7usize, -1i32), (5usize, 1i32), (12usize, 1i32), (13usize, 1i32)]),
        column_at_start("IDS"@, -1, 1, seq![(0usize, 1i32), (1usize, 1i32), (8usize, 1i32), (6usize, -1i32), (13usize, -1i32)]),
        column_at_start("LIES"@, -1, 1, seq![(0usize, -1i32), (7usize, -1i32), (1usize, 1i32), (2usize, -1i32), (9usize, -1i32)]),
        column_at_start("SCAM"@, -1, 0, seq![(2usize, 1i32), (4usize, 1i32), (11usize, 1i32)]),
        column_at_start("BLUR"@, -1, 2, seq![(0usize, -1i32), (7usize, -1i32), (3usize, 1i32), (6usize, -1i32), (13usize, -1i32)]),
        column_at_start("FAKE"@, -1, 2, seq![(2usize, 1i32), (9usize, 1i32), (4usize, 1i32)]),
        column_at_start("CODE"@, -1, 3, seq![(4usize, -1i32), (11usize, -1i32), (5usize, 1i32), (6usize, -1i32), (13usize, -1i32)]),
        column_at_start("SPY"@, -1, 1, seq![(0usize, -1i32), (7usize, -1i32), (5usize, 1i32), (12usize, 1i32), (6usize, 1i32)]),
    ]
}

/// Returns the fourteen columns of the puzzle, in two rows of seven, each
/// in its starting position. A column's links name the other columns that
/// turn with it; the column itself is not among them, since it turns by the
/// rotation asked for.
pub fn icyem_columns() -> (r: Columns)
    ensures
        r.wf(),
        r@ == spec_icyem_columns(),
{
    proof {
        reveal_strlit("ELF");
        reveal_strlit("HIDE");
        reveal_strlit("SCAR");
        reveal_strlit("RUNS");
        reveal_strlit("FLED");
        reveal_strlit("BURN");
        reveal_strlit("SOL");
        reveal_strlit("IDS");
        reveal_strlit("LIES");
        reveal_strlit("SCAM");
        reveal_strlit("BLUR");
        reveal_strlit("FAKE");
        reveal_strlit("CODE");
        reveal_strlit("SPY");
    }
    let mut columns: Vec<Column> = Vec::new();
    let links: Vec<(usize, i32)> = vec![(7, 1), (1, 1), (8, 1), (6, -1), (13, -1)];
    proof {
        assert(links@ =~= seq![(7usize, 1i32), (1usize, 1i32), (8usize, 1i32), (6usize, -1i32), (13usize, -1i32)]);
    }
    columns.push(Column::new("ELF", -1, 1, links));
    let links: Vec<(usize, i32)> = vec![(0, -1), (7, -1), (8, 1), (2, -1), (9, -1)];
    proof {
        assert(links@ =~= seq![(0usize, -1i32), (7usize, -1i32), (8usize, 1i32), (2usize, -1i32), (9usize, -1i32)]);
    }
    columns.push(Column::new("HIDE", -2, 1, links));
    let links: Vec<(usize, i32)> = vec![(9, 1), (4, 1), (11, 1)];
    proof {
        assert(links@ =~= seq![(9usize, 1i32), (4usize, 1i32), (11usize, 1i32)]);
    }
    columns.push(Column::new("SCAR", -2, 0, links));
    let links: Vec<(usize, i32)> = vec![(0, -1), (7, -1), (10, 1), (6, -1), (13, -1)];
    proof {
        assert(links@ =~= seq![(0usize, -1i32), (7usize, -1i32), (10usize, 1i32), (6usize, -1i32), (13usize, -1i32)]);
    }
    columns.push(Column::new("RUNS", -2, 2, links));
    let links: Vec<(usize, i32)> = vec![(2, 1), (9, 1), (11, 1)];
    proof {
        assert(links@ =~= seq![(2usize, 1i32), (9usize, 1i32), (11usize, 1i32)]);
    }
    columns.push(Column::new("FLED", -2, 2, links));
    let links: Vec<(usize, i32)> = vec![(4, -1), (11, -1), (12, 1), (6, -1), (13, -1)];
    proof {
        assert(links@ =~= seq![(4usize, -1i32), (11usize, -1i32), (12usize, 1i32), (6usize, -1i32), (13usize, -1i32)]);
    }
    columns.push(Column::new("BURN", -2, 3, links));
    let links: Vec<(usize, i32)> = vec![(0, -1), (7, -1), (5, 1), (12, 1), (13, 1)];
    proof {
        assert(links@ =~= seq![(0usize, -1i32), (7usize, -1i32), (5usize, 1i32), (12usize, 1i32), (13usize, 1i32)]);
    }
    columns.push(Column::new("SOL", -1, 1, links));
    let links: Vec<(usize, i32)> = vec![(0, 1), (1, 1), (8, 1), (6, -1), (13, -1)];
    proof {
        assert(links@ =~= seq![(0usize, 1i32), (1usize, 1i32), (8usize, 1i32), (6usize, -1i32), (13usize, -1i32)]);
    }
    columns.push(Column::new("IDS", -1, 1, links));
    let links: Vec<(usize, i32)> = vec![(0, -1), (7, -1), (1, 1), (2, -1), (9, -1)];
    proof {
        assert(links@ =~= seq![(0usize, -1i32), (7usize, -1i32), (1usize, 1i32), (2usize, -1i32), (9usize, -1i32)]);
    }
    columns.push(Column::new("LIES", -1, 1, links));
    let links: Vec<(usize, i32)> = vec![(2, 1), (4, 1), (11, 1)];
    proof {
        assert(links@ =~= seq![(2usize, 1i32), (4usize, 1i32), (11usize, 1i32)]);
    }
    columns.push(Column::new("SCAM", -1, 0, links));
    let links: Vec<(usize, i32)> = vec![(0, -1), (7, -1), (3, 1), (6, -1), (13, -1)];
    proof {
        assert(links@ =~= seq![(0usize, -1i32), (7usize, -1i32), (3usize, 1i32), (6usize, -1i32), (13usize, -1i32)]);
    }
    columns.push(Column::new("BLUR", -1, 2, links));
    let links: Vec<(usize, i32)> = vec![(2, 1), (9, 1), (4, 1)];
    proof {
        assert(links@ =~= seq![(2usize, 1i32), (9usize, 1i32), (4usize, 1i32)]);
    }
    columns.push(Column::new("FAKE", -1, 2, links));
    let links: Vec<(usize, i32)> = vec![(4, -1), (11, -1), (5, 1), (6, -1), (13, -1)];
    proof {
        assert(links@ =~= seq![(4usize, -1i32), (11usize, -1i32), (5usize, 1i32), (6usize, -1i32), (13usize, -1i32)]);
    }
    columns.push(Column::new("CODE", -1, 3, links));
    let links: Vec<(usize, i32)> = vec![(0, -1), (7, -1), (5, 1), (12, 1), (6, 1)];
    proof {
        assert(links@ =~= seq![(0usize, -1i32), (7usize, -1i32), (5usize, 1i32), (12usize, 1i32), (6usize, 1i32)]);
    }
    columns.push(Column::new("SPY", -1, 1, links));
    proof {
        assert(Seq::new(columns@.len(), |c: int| columns@[c]@) =~= spec_icyem_columns());
    }
    Columns::new(columns)
}

/// The mathematical value of the state of the column puzzle.
pub struct IcyEmModel {
    pub access: Access,
    pub columns: Seq<ColumnModel>,
}

/// The columns in the positions of the solved puzzle.
pub open spec fn solved_columns(columns: Seq<ColumnModel>) -> Seq<ColumnModel> {
    with_positions(columns, |c: int| columns[c].solved % (columns[c].letters.len() as int))
}

/// The state that a saved value stands for: the progress under "access",
/// and the columns in the positions under "columns", or in those of the
/// solved puzzle if the progress says that it is solved.
pub open spec fn icyem_restored(m: Saved) -> IcyEmModel {
    let t = spec_to_table(m);
    let access = Access::from_table(t);
    let columns = columns_restored(spec_icyem_columns(), spec_to_array(entry(t, "columns"@)));
    IcyEmModel {
        access,
        columns: if access.spec_is_solved() {
            solved_columns(columns)
        } else {
            columns
        },
    }
}

/// The table that saves the state: the progress under "access", and the
/// positions of the columns under "columns" unless the puzzle is solved or
/// every column is where it starts.
pub open spec fn icyem_saved(m: IcyEmModel) -> Saved {
    let base = no_entries().insert("access"@, Saved::Text(m.access.spec_key()));
    if !m.access.spec_is_solved() && !columns_at_start(m.columns) {
        Saved::Table(base.insert("columns"@, columns_saved(m.columns)))
    } else {
        Saved::Table(base)
    }
}

/// The state of the column puzzle: the player's progress and the columns.
pub struct IcyEmState {
    access: Access,
    columns: Columns,
}

impl View for IcyEmState {
    type V = IcyEmModel;

    closed spec fn view(&self) -> IcyEmModel {
        IcyEmModel { access: self.access, columns: self.columns@ }
    }
}

impl IcyEmState {
    /// The invariant of the type: that of the columns.
    pub closed spec fn wf(&self) -> bool {
        self.columns.wf()
    }

    /// What the invariant says of the value: the columns are valid.
    pub proof fn lemma_wf(&self)
        requires
            self.wf(),
        ensures
            columns_ok(self@.columns),
    {
        self.columns.lemma_wf();
    }

    /// Makes the state of a puzzle that the player has not seen.
    pub fn new() -> (s: IcyEmState)
        ensures
            s.wf(),
            s@ == (IcyEmModel { access: Access::Unvisited, columns: spec_icyem_columns() }),
    {
        IcyEmState { access: Access::Unvisited, columns: icyem_columns() }
    }

    /// Marks the puzzle solved and puts every column in the position of the
    /// solved puzzle.
    pub fn solve(&mut self)
        requires
            old(self).wf(),
        ensures
            final(self).wf(),
            final(self)@ == (IcyEmModel {
                access: Access::Solved,
                columns: solved_columns(old(self)@.columns),
            }),
            columns_solved(final(self)@.columns),
    {
        self.access = Access::Solved;
        self.columns.solve();
    }

    /// Returns the columns.
    pub fn columns(&self) -> (r: &Columns)
        ensures
            r@ == self@.columns,
            self.wf() ==> r.wf(),
    {
        &self.columns
    }

    /// Returns the columns, to be changed in place.
    pub fn columns_mut(&mut self) -> (r: &mut Columns)
        ensures
            r@ == old(self)@.columns,
            old(self).wf() ==> r.wf(),
            final(self)@ == (IcyEmModel { columns: final(r)@, ..old(self)@ }),
            final(r).wf() ==> final(self).wf(),
    {
        &mut self.columns
    }

    /// Rotates column `col` by `by` letters, and the columns linked to it
    /// with it. The puzzle is marked solved if every column then shows the
    /// letters of the solved puzzle.
    pub fn rotate_column(&mut self, col: usize, by: i32)
        requires
            old(self).wf(),
            col < old(self)@.columns.len(),
        ensures
            final(self).wf(),
            final(self)@.columns == rotated_columns(old(self)@.columns, col as int, by as int),
            final(self)@.access == (if columns_solved(final(self)@.columns) {
                Access::Solved
            } else {
                old(self)@.access
            }),
    {
        self.columns.rotate_column(col, by);
        if self.columns.is_solved() {
            self.access = Access::Solved;
        }
    }

    /// Returns the place of the puzzle in the game.
    pub fn location() -> (r: Location)
        ensures
            r == Location::ColumnAsIcyEm,
    {
        Location::ColumnAsIcyEm
    }

    /// Returns the player's progress.
    pub fn access(&self) -> (r: Access)
        ensures
            r == self@.access,
    {
        self.access
    }

    /// Returns the player's progress, to be changed in place.
    pub fn access_mut(&mut self) -> (r: &mut Access)
        ensures
            *r == old(self)@.access,
            final(self)@ == (IcyEmModel { access: *final(r), ..old(self)@ }),
            final(self).wf() == old(self).wf(),
    {
        &mut self.access
    }

    /// Returns true if the puzzle is solved.
    pub fn is_solved(&self) -> (r: bool)
        ensures
            r == self@.access.spec_is_solved(),
    {
        self.access.is_solved()
    }

    /// Returns true if some column has left the position in which it starts.
    pub fn can_reset(&self) -> (r: bool)
        ensures
            r == !columns_at_start(self@.columns),
    {
        self.columns.can_reset()
    }

    /// Puts every column in the position in which it starts.
    pub fn reset(&mut self)
        requires
            old(self).wf(),
        ensures
            final(self).wf(),
            final(self)@ == (IcyEmModel {
                columns: with_positions(old(self)@.columns, |c: int| 0),
                ..old(self)@
            }),
    {
        self.columns.reset();
    }

    /// Returns the table that saves the state: the progress under "access",
    /// and the positions of the columns under "columns" unless the puzzle is
    /// solved or every column is where it starts.
    pub fn to_toml(&self) -> (v: toml::Value)
        ensures
            value_model(v) == icyem_saved(self@),
    {
        let mut table = new_table();
        table_insert(&mut table, "access", self.access.to_toml());
        if !self.access.is_solved() && self.columns.can_reset() {
            table_insert(&mut table, "columns", self.columns.to_toml());
        }
        table_value(table)
    }

    /// Returns the state that `value` stands for: the progress under
    /// "access", and the columns in the positions under "columns", or in
    /// those of the solved puzzle if the progress says that it is solved.
    /// A value that is no table stands for a puzzle that the player has not
    /// seen.
    pub fn from_toml(value: toml::Value) -> (s: IcyEmState)
        ensures
            s.wf(),
            s@ == icyem_restored(value_model(value)),
    {
        let mut table = to_table(value);
        let access = Access::read_from(&table);
        let saved = pop_array(&mut table, "columns");
        let mut columns = Columns::from_toml(icyem_columns(), &saved);
        if access.is_solved() {
            columns.solve();
        }
        IcyEmState { access, columns }
    }
}

} // verus!
