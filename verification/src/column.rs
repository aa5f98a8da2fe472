use vstd::arithmetic::div_mod::{lemma_add_mod_noop, lemma_add_mod_noop_right, lemma_mod_twice, lemma_small_mod};
use crate::saved::{array_value, integer_value, lemma_values_push, spec_to_i32, to_i32, value_model, values_model, Saved};
use vstd::prelude::*;
use vstd::string::StrSliceExecFns;

verus! {

/// The mathematical value of one column of letters.
pub struct ColumnModel {
    /// The letters from top to bottom.
    pub letters: Seq<char>,
    /// The row at which the column is drawn.
    pub offset: int,
    /// By how many letters the column is rotated now.
    pub position: int,
    /// By how many letters it is rotated in the solved puzzle.
    pub solved: int,
    /// The other columns that turn with this one: each with its index and
    /// with the number of letters that it moves for one step of this column.
    /// The column itself is not listed: it turns by the rotation asked for.
    pub links: Seq<(usize, i32)>,
}

/// The column in its starting position with the given letters, row,
/// solved position and links.
pub open spec fn column_at_start(
    letters: Seq<char>,
    offset: int,
    solved: int,
    links: Seq<(usize, i32)>,
) -> ColumnModel {
    ColumnModel { letters, offset, position: 0, solved, links }
}

/// The sign of a rotation: 1 for a positive number, -1 for a negative one,
/// 0 for none.
pub open spec fn signum(by: int) -> int {
    if by > 0 {
        1
    } else if by < 0 {
        -1
    } else {
        0
    }
}

/// A coupled step in the sense of the rotation that caused it.
pub open spec fn signed_step(step: int, sign: int) -> int {
    if sign > 0 {
        step
    } else if sign < 0 {
        -step
    } else {
        0
    }
}

/// By how many letters the links move the column `target` for a rotation of
/// the given sign.
pub open spec fn linked_shift(links: Seq<(usize, i32)>, target: int, sign: int) -> int
    decreases links.len(),
{
    if links.len() == 0 {
        0
    } else {
        linked_shift(links.drop_last(), target, sign) + (if links.last().0 == target {
            signed_step(links.last().1 as int, sign)
        } else {
            0
        })
    }
}

/// By how many letters column `c` moves when column `i` is rotated by `by`:
/// the column itself by `by`, and each column linked to it by its step, in
/// the sense of `by`.
pub open spec fn total_shift(columns: Seq<ColumnModel>, i: int, by: int, c: int) -> int {
    (if c == i { by } else { 0 }) + linked_shift(columns[i].links, c, signum(by))
}

/// The column rotated further by `by` letters.
pub open spec fn turned(column: ColumnModel, by: int) -> ColumnModel {
    ColumnModel { position: (column.position + by) % (column.letters.len() as int), ..column }
}

/// The columns after column `i` was rotated by `by`.
pub open spec fn rotated_columns(columns: Seq<ColumnModel>, i: int, by: int) -> Seq<ColumnModel> {
    Seq::new(columns.len(), |c: int| turned(columns[c], total_shift(columns, i, by, c)))
}

/// True if the column has letters, not more than fit a count, and its
/// position is one of them.
pub open spec fn column_ok(column: ColumnModel) -> bool {
    &&& 0 < column.letters.len() <= i32::MAX
    &&& 0 <= column.position < column.letters.len()
}

/// True if each column is valid and linked to columns that exist.
pub open spec fn columns_ok(columns: Seq<ColumnModel>) -> bool {
    forall|c: int|
        0 <= c < columns.len() ==> column_ok(#[trigger] columns[c]) && forall|k: int|
            0 <= k < columns[c].links.len() ==> (#[trigger] columns[c].links[k]).0 < columns.len()
}

/// True if the column shows the letters of the solved puzzle: its position
/// and the solved one differ by whole turns.
pub open spec fn column_solved(column: ColumnModel) -> bool {
    column.position == column.solved % (column.letters.len() as int)
}

/// True if every column shows the letters of the solved puzzle.
pub open spec fn columns_solved(columns: Seq<ColumnModel>) -> bool {
    forall|c: int| 0 <= c < columns.len() ==> column_solved(#[trigger] columns[c])
}

/// True if every column is in the position in which it starts.
pub open spec fn columns_at_start(columns: Seq<ColumnModel>) -> bool {
    forall|c: int| 0 <= c < columns.len() ==> (#[trigger] columns[c]).position == 0
}

/// The columns with each position set as `f` says.
pub open spec fn with_positions(columns: Seq<ColumnModel>, f: spec_fn(int) -> int) -> Seq<ColumnModel> {
    Seq::new(columns.len(), |c: int| ColumnModel { position: f(c), ..columns[c] })
}

/// One column of letters that can be rotated.
pub struct Column {
    letters: Vec<char>,
    offset: i32,
    position: i32,
    solved_position: i32,
    linkages: Vec<(usize, i32)>,
}

impl View for Column {
    type V = ColumnModel;

    closed spec fn view(&self) -> ColumnModel {
        ColumnModel {
            letters: self.letters@,
            offset: self.offset as int,
            position: self.position as int,
            solved: self.solved_position as int,
            links: self.linkages@,
        }
    }
}

/// Returns the characters of `s`.
fn chars_of(s: &str) -> (r: Vec<char>)
    ensures
        r@ == s@,
{
    let n = s.unicode_len();
    let mut r: Vec<char> = Vec::new();
    let mut i: usize = 0;
    while i < n
        invariant
            n == s@.len(),
            i <= n,
            r@ == s@.subrange(0, i as int),
        decreases n - i,
    {
        r.push(s.get_char(i));
        proof {
            assert(r@ =~= s@.subrange(0, i + 1));
        }
        i += 1;
    }
    proof {
        assert(r@ =~= s@);
    }
    r
}

impl Column {
    /// Makes a column in its starting position with the letters of `word`,
    /// drawn at row `offset`, solved at `solved_position`, and linked as
    /// `linkages` says.
    pub fn new(word: &str, offset: i32, solved_position: i32, linkages: Vec<(usize, i32)>) -> (c: Column)
        requires
            0 < word@.len() <= i32::MAX,
        ensures
            c@ == (ColumnModel {
                letters: word@,
                offset: offset as int,
                position: 0,
                solved: solved_position as int,
                links: linkages@,
            }),
            column_ok(c@),
    {
        Column { letters: chars_of(word), offset, position: 0, solved_position, linkages }
    }

    /// Puts the column in position `p`.
    fn set_position(&mut self, p: i32)
        ensures
            final(self)@ == (ColumnModel { position: p as int, ..old(self)@ }),
    {
        self.position = p;
    }

    /// Rotates the column further by `by` letters.
    fn rotate(&mut self, by: i64)
        requires
            column_ok(old(self)@),
            -0x1_0000_0000 <= by <= 0x1_0000_0000,
        ensures
            final(self)@ == turned(old(self)@, by as int),
            column_ok(final(self)@),
    {
        let len = self.letters.len() as i64;
        let sum: i64 = self.position as i64 + by;
        match sum.checked_rem_euclid(len) {
            Some(p) => {
                self.position = p as i32;
            },
            None => {},
        }
    }

    /// Returns the position of the solved puzzle, as one of the column's
    /// positions.
    fn solved_place(&self) -> (r: i32)
        requires
            column_ok(self@),
        ensures
            r == self@.solved % (self@.letters.len() as int),
    {
        let len = self.letters.len() as i64;
        match (self.solved_position as i64).checked_rem_euclid(len) {
            Some(p) => p as i32,
            None => 0,
        }
    }
}

/// A row of columns of letters. Each can be rotated, and rotating one also
/// rotates those linked to it.
pub struct Columns {
    columns: Vec<Column>,
}

impl View for Columns {
    type V = Seq<ColumnModel>;

    closed spec fn view(&self) -> Seq<ColumnModel> {
        Seq::new(self.columns@.len(), |c: int| self.columns@[c]@)
    }
}

impl Columns {
    /// The invariant of the type: each column is valid and linked to
    /// columns that exist.
    pub closed spec fn wf(&self) -> bool {
        columns_ok(self@)
    }

    /// What the invariant says of the value.
    pub proof fn lemma_wf(&self)
        requires
            self.wf(),
        ensures
            columns_ok(self@),
    {
    }

    /// Makes the row of the given columns.
    pub fn new(columns: Vec<Column>) -> (r: Columns)
        requires
            columns_ok(Seq::new(columns@.len(), |c: int| columns@[c]@)),
        ensures
            r.wf(),
            r@ == Seq::new(columns@.len(), |c: int| columns@[c]@),
    {
        Columns { columns }
    }

    /// Returns the number of columns.
    pub fn num_columns(&self) -> (n: usize)
        ensures
            n == self@.len(),
    {
        self.columns.len()
    }

    /// Returns the letters of column `col` from top to bottom.
    pub fn column_letters(&self, col: usize) -> (r: &Vec<char>)
        requires
            col < self@.len(),
        ensures
            r@ == self@[col as int].letters,
    {
        &self.columns[col].letters
    }

    /// Returns the row at which column `col` is drawn.
    pub fn column_offset(&self, col: usize) -> (r: i32)
        requires
            col < self@.len(),
        ensures
            r == self@[col as int].offset,
    {
        self.columns[col].offset
    }

    /// Returns the columns linked to column `col`, each with its step.
    pub fn column_linkages(&self, col: usize) -> (r: &Vec<(usize, i32)>)
        requires
            col < self@.len(),
        ensures
            r@ == self@[col as int].links,
    {
        &self.columns[col].linkages
    }

    /// Returns by how many letters column `col` is rotated.
    pub fn column_position(&self, col: usize) -> (r: i32)
        requires
            col < self@.len(),
        ensures
            r == self@[col as int].position,
    {
        self.columns[col].position
    }

    /// Returns true if every column shows the letters of the solved puzzle.
    pub fn is_solved(&self) -> (r: bool)
        requires
            self.wf(),
        ensures
            r == columns_solved(self@),
    {
        let mut c: usize = 0;
        while c < self.columns.len()
            invariant
                self.wf(),
                c <= self.columns@.len(),
                forall|j: int| 0 <= j < c ==> column_solved(#[trigger] self@[j]),
            decreases self.columns@.len() - c,
        {
            assert(column_ok(self@[c as int]));
            if self.columns[c].position != self.columns[c].solved_place() {
                assert(!column_solved(self@[c as int]));
                return false;
            }
            c += 1;
        }
        true
    }

    /// Returns true if some column has left the position in which it starts.
    pub fn can_reset(&self) -> (r: bool)
        ensures
            r == !columns_at_start(self@),
    {
        let mut c: usize = 0;
        while c < self.columns.len()
            invariant
                c <= self.columns@.len(),
                forall|j: int| 0 <= j < c ==> (#[trigger] self@[j]).position == 0,
            decreases self.columns@.len() - c,
        {
            if self.columns[c].position != 0 {
                assert(self@[c as int].position != 0);
                return true;
            }
            c += 1;
        }
        false
    }

    /// Puts every column in the position in which it starts.
    pub fn reset(&mut self)
        requires
            old(self).wf(),
        ensures
            final(self).wf(),
            final(self)@ == with_positions(old(self)@, |c: int| 0),
    {
        let n = self.columns.len();
        let mut c: usize = 0;
        while c < n
            invariant
                n == self.columns@.len(),
                n == old(self)@.len(),
                c <= n,
                columns_ok(old(self)@),
                forall|j: int|
                    0 <= j < c ==> #[trigger] self@[j] == (ColumnModel { position: 0, ..old(self)@[j] }),
                forall|j: int| c <= j < n ==> #[trigger] self@[j] == old(self)@[j],
            decreases n - c,
        {
            let ghost before = self@;
            self.columns[c].set_position(0);
            proof {
                assert(forall|j: int| 0 <= j < n && j != c ==> #[trigger] self@[j] == before[j]);
                assert(self@[c as int] == (ColumnModel { position: 0, ..before[c as int] }));
            }
            c += 1;
        }
        proof {
            assert(self@ =~= with_positions(old(self)@, |c: int| 0));
        }
    }

    /// Puts every column in the position of the solved puzzle.
    pub fn solve(&mut self)
        requires
            old(self).wf(),
        ensures
            final(self).wf(),
            columns_solved(final(self)@),
            final(self)@ == with_positions(
                old(self)@,
                |c: int| old(self)@[c].solved % (old(self)@[c].letters.len() as int),
            ),
    {
        let n = self.columns.len();
        let mut c: usize = 0;
        while c < n
            invariant
                n == self.columns@.len(),
                n == old(self)@.len(),
                c <= n,
                columns_ok(old(self)@),
                forall|j: int|
                    0 <= j < c ==> #[trigger] self@[j] == (ColumnModel {
                        position: old(self)@[j].solved % (old(self)@[j].letters.len() as int),
                        ..old(self)@[j]
                    }),
                forall|j: int| c <= j < n ==> #[trigger] self@[j] == old(self)@[j],
            decreases n - c,
        {
            assert(column_ok(self@[c as int]));
            let p = self.columns[c].solved_place();
            let ghost before = self@;
            self.columns[c].set_position(p);
            proof {
                assert(forall|j: int| 0 <= j < n && j != c ==> #[trigger] self@[j] == before[j]);
            }
            c += 1;
        }
        proof {
            assert(self@ =~= with_positions(
                old(self)@,
                |c: int| old(self)@[c].solved % (old(self)@[c].letters.len() as int),
            ));
        }
    }

    /// Puts the columns in the given positions, each taken modulo the
    /// number of letters of its column; a column without a given position
    /// keeps its own.
    pub fn set_positions(&mut self, positions: &Vec<i32>)
        requires
            old(self).wf(),
        ensures
            final(self).wf(),
            final(self)@ == with_positions(
                old(self)@,
                |c: int|
                    if c < positions@.len() {
                        positions@[c] as int % (old(self)@[c].letters.len() as int)
                    } else {
                        old(self)@[c].position
                    },
            ),
    {
        let n = self.columns.len();
        let mut c: usize = 0;
        while c < n && c < positions.len()
            invariant
                n == self.columns@.len(),
                n == old(self)@.len(),
                c <= n,
                c <= positions@.len(),
                columns_ok(old(self)@),
                forall|j: int|
                    0 <= j < c ==> #[trigger] self@[j] == (ColumnModel {
                        position: positions@[j] as int % (old(self)@[j].letters.len() as int),
                        ..old(self)@[j]
                    }),
                forall|j: int| c <= j < n ==> #[trigger] self@[j] == old(self)@[j],
            decreases n - c,
        {
            assert(column_ok(self@[c as int]));
            let len = self.columns[c].letters.len() as i64;
            let ghost before = self@;
            match (positions[c] as i64).checked_rem_euclid(len) {
                Some(p) => {
                    self.columns[c].set_position(p as i32);
                },
                None => {},
            }
            proof {
                assert(forall|j: int| 0 <= j < n && j != c ==> #[trigger] self@[j] == before[j]);
            }
            c += 1;
        }
        proof {
            assert(self@ =~= with_positions(
                old(self)@,
                |c: int|
                    if c < positions@.len() {
                        positions@[c] as int % (old(self)@[c].letters.len() as int)
                    } else {
                        old(self)@[c].position
                    },
            ));
        }
    }

    /// Rotates column `col` by `by` letters, and each column linked to it
    /// by its step, forwards if `by` is positive and backwards if it is
    /// negative.
    pub fn rotate_column(&mut self, col: usize, by: i32)
        requires
            old(self).wf(),
            col < old(self)@.len(),
        ensures
            final(self).wf(),
            final(self)@ == rotated_columns(old(self)@, col as int, by as int),
    {
        let ghost start = self@;
        let ghost links = start[col as int].links;
        let ghost sign = signum(by as int);
        assert(column_ok(self@[col as int]));
        self.columns[col].rotate(by as i64);
        let n = self.columns[col].linkages.len();
        let mut k: usize = 0;
        proof {
            assert(links.subrange(0, 0) =~= Seq::<(usize, i32)>::empty());
            assert forall|c: int| 0 <= c < start.len() implies #[trigger] self@[c] == turned(
                start[c],
                (if c == col { by as int } else { 0 }) + linked_shift(links.subrange(0, 0), c, sign),
            ) by {
                if c != col {
                    lemma_small_mod(start[c].position as nat, start[c].letters.len());
                }
            }
        }
        while k < n
            invariant
                col < start.len(),
                columns_ok(start),
                self@.len() == start.len(),
                links == start[col as int].links,
                sign == signum(by as int),
                n == links.len(),
                k <= n,
                forall|c: int|
                    0 <= c < start.len() ==> #[trigger] self@[c] == turned(
                        start[c],
                        (if c == col { by as int } else { 0 }) + linked_shift(
                            links.subrange(0, k as int),
                            c,
                            sign,
                        ),
                    ),
            decreases n - k,
        {
            assert(self@[col as int].links == links);
            let (other, step) = self.columns[col].linkages[k];
            assert((other, step) == links[k as int]);
            assert(other < start.len());
            let amount: i64 = if by > 0 {
                step as i64
            } else if by < 0 {
                -(step as i64)
            } else {
                0
            };
            let ghost before = self@;
            assert(column_ok(self@[other as int]));
            self.columns[other].rotate(amount);
            proof {
                assert(links.subrange(0, k + 1).drop_last() =~= links.subrange(0, k as int));
                assert forall|c: int| 0 <= c < start.len() implies #[trigger] self@[c] == turned(
                    start[c],
                    (if c == col { by as int } else { 0 }) + linked_shift(
                        links.subrange(0, k + 1),
                        c,
                        sign,
                    ),
                ) by {
                    let m = start[c].letters.len() as int;
                    let sofar = (if c == col { by as int } else { 0 }) + linked_shift(
                        links.subrange(0, k as int),
                        c,
                        sign,
                    );
                    assert(before[c] == turned(start[c], sofar));
                    if c == other {
                        assert(self@[c] == turned(before[c], amount as int));
                        lemma_add_mod_noop(start[c].position + sofar, amount as int, m);
                        lemma_add_mod_noop_right(
                            (start[c].position + sofar) % m,
                            amount as int,
                            m,
                        );
                        lemma_mod_twice(start[c].position + sofar, m);
                    } else {
                        assert(self@[c] == before[c]);
                    }
                }
            }
            k += 1;
        }
        proof {
            assert(links.subrange(0, n as int) =~= links);
            assert(self@ =~= rotated_columns(start, col as int, by as int));
        }
    }
}

/// The links move a column as far backwards for a rotation of one sign as
/// they move it forwards for a rotation of the other sign.
pub proof fn lemma_linked_shift_reverses(links: Seq<(usize, i32)>, target: int, sign: int)
    ensures
        linked_shift(links, target, -sign) == -linked_shift(links, target, sign),
    decreases links.len(),
{
    if links.len() > 0 {
        lemma_linked_shift_reverses(links.drop_last(), target, sign);
    }
}

/// Rotating a column by some number of letters and then by as many letters
/// the other way, the linked columns turning back with it, leaves every
/// column where it was.
pub proof fn lemma_rotation_undone(columns: Seq<ColumnModel>, i: int, by: int)
    requires
        columns_ok(columns),
        0 <= i < columns.len(),
    ensures
        columns_ok(rotated_columns(columns, i, by)),
        rotated_columns(rotated_columns(columns, i, by), i, -by) == columns,
{
    let there = rotated_columns(columns, i, by);
    let back = rotated_columns(there, i, -by);
    assert forall|c: int| 0 <= c < columns.len() implies column_ok(#[trigger] there[c]) && forall|k: int|
        0 <= k < there[c].links.len() ==> (#[trigger] there[c].links[k]).0 < there.len() by {
        assert(column_ok(columns[c]));
    }
    assert forall|c: int| 0 <= c < columns.len() implies #[trigger] back[c] == columns[c] by {
        assert(column_ok(columns[c]));
        let m = columns[c].letters.len() as int;
        let shift = total_shift(columns, i, by, c);
        lemma_linked_shift_reverses(columns[i].links, c, signum(by));
        assert(signum(-by) == -signum(by));
        assert(total_shift(there, i, -by, c) == -shift);
        lemma_add_mod_noop(columns[c].position + shift, -shift, m);
        lemma_add_mod_noop_right((columns[c].position + shift) % m, -shift, m);
        lemma_mod_twice(columns[c].position + shift, m);
        lemma_small_mod(columns[c].position as nat, m as nat);
    }
    assert(back =~= columns);
}

/// The list that saves the columns: the position of each.
pub open spec fn columns_saved(columns: Seq<ColumnModel>) -> Saved {
    Saved::Array(Seq::new(columns.len(), |c: int| Saved::Integer(columns[c].position)))
}

/// The columns in the positions that the list `saved` holds, each taken
/// modulo the number of letters of its column; a column for which the list
/// holds nothing keeps its position.
pub open spec fn columns_restored(columns: Seq<ColumnModel>, saved: Seq<Saved>) -> Seq<ColumnModel> {
    with_positions(
        columns,
        |c: int|
            if c < saved.len() {
                spec_to_i32(saved[c]) % (columns[c].letters.len() as int)
            } else {
                columns[c].position
            },
    )
}

impl Columns {
    /// Returns the value that saves the columns: the list of their
    /// positions.
    #[verifier::loop_isolation(false)]
    pub fn to_toml(&self) -> (v: toml::Value)
        ensures
            value_model(v) == columns_saved(self@),
    {
        let mut list: Vec<toml::Value> = Vec::new();
        let mut c: usize = 0;
        while c < self.columns.len()
            invariant
                c <= self.columns@.len(),
                values_model(list@) == Seq::new(c as nat, |j: int| Saved::Integer(self@[j].position)),
            decreases self.columns@.len() - c,
        {
            let ghost before = list@;
            let saved = integer_value(self.columns[c].position as i64);
            list.push(saved);
            proof {
                lemma_values_push(before, saved);
                assert(values_model(list@) =~= Seq::new(
                    (c + 1) as nat,
                    |j: int| Saved::Integer(self@[j].position),
                ));
            }
            c += 1;
        }
        proof {
            assert(Seq::new(self.columns@.len() as nat, |j: int| Saved::Integer(self@[j].position))
                =~= Seq::new(self@.len(), |j: int| Saved::Integer(self@[j].position)));
        }
        array_value(list)
    }

    /// Returns `start` with the columns in the positions that the list
    /// `saved` holds.
    #[verifier::loop_isolation(false)]
    pub fn from_toml(start: Columns, saved: &Vec<toml::Value>) -> (r: Columns)
        requires
            start.wf(),
        ensures
            r.wf(),
            r@ == columns_restored(start@, values_model(saved@)),
    {
        let mut positions: Vec<i32> = Vec::new();
        let mut i: usize = 0;
        while i < saved.len()
            invariant
                i <= saved@.len(),
                positions@.len() == i,
                forall|j: int| 0 <= j < i ==> positions@[j] == spec_to_i32(#[trigger] values_model(saved@)[j]),
            decreases saved@.len() - i,
        {
            positions.push(to_i32(&saved[i]));
            i += 1;
        }
        let mut r = start;
        r.set_positions(&positions);
        proof {
            assert(r@ =~= columns_restored(start@, values_model(saved@)));
        }
        r
    }
}

} // verus!
