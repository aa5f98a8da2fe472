use crate::saved::{same_text, value_as_str, value_model, Saved};
use vstd::prelude::*;

verus! {

/// The number of columns of the light grid.
pub const NUM_COLS: i32 = 5;

/// The number of rows of the light grid.
pub const NUM_ROWS: i32 = 4;

/// The shape with which a fresh grid starts.
pub const INIT_NEXT: char = '+';

/// True for the four shapes: '+', 'N', 'X' and 'Z'.
pub open spec fn is_shape(shape: char) -> bool {
    shape == '+' || shape == 'N' || shape == 'X' || shape == 'Z'
}

/// The shape that follows `shape` in the cycle '+', 'N', 'X', 'Z'.
pub open spec fn shape_after(shape: char) -> char {
    if shape == '+' {
        'N'
    } else if shape == 'N' {
        'X'
    } else if shape == 'X' {
        'Z'
    } else {
        '+'
    }
}

/// The shape that comes before `shape` in the cycle '+', 'N', 'X', 'Z'.
pub open spec fn shape_before(shape: char) -> char {
    if shape == '+' {
        'Z'
    } else if shape == 'N' {
        '+'
    } else if shape == 'X' {
        'N'
    } else {
        'X'
    }
}

/// True if the cell `dx` columns and `dy` rows from the centre belongs to
/// `shape`. Each shape has five cells, the centre among them.
pub open spec fn shape_has(shape: char, dx: int, dy: int) -> bool {
    if shape == '+' {
        (dx == 0 && dy == 0) || (dx == 1 && dy == 0) || (dx == 0 && dy == 1) || (dx == -1 && dy == 0)
            || (dx == 0 && dy == -1)
    } else if shape == 'N' {
        (dx == 0 && dy == 0) || (dx == -1 && dy == 0) || (dx == -1 && dy == 1) || (dx == 1 && dy == 0)
            || (dx == 1 && dy == -1)
    } else if shape == 'X' {
        (dx == 0 && dy == 0) || (dx == -1 && dy == -1) || (dx == 1 && dy == -1) || (dx == -1
            && dy == 1) || (dx == 1 && dy == 1)
    } else {
        (dx == 0 && dy == 0) || (dx == 0 && dy == -1) || (dx == -1 && dy == -1) || (dx == 0 && dy == 1)
            || (dx == 1 && dy == 1)
    }
}

/// The members of `s` below `n` that are not negative, in rising order.
pub open spec fn rising(s: Set<int>, n: int) -> Seq<i32>
    decreases n,
{
    if n <= 0 {
        Seq::empty()
    } else if s.contains(n - 1) {
        rising(s, n - 1).push((n - 1) as i32)
    } else {
        rising(s, n - 1)
    }
}

/// The shape that a saved value stands for: '+' for anything but the word
/// of another shape.
pub open spec fn shape_read(m: Saved) -> char {
    if m == Saved::Text("N"@) {
        'N'
    } else if m == Saved::Text("X"@) {
        'X'
    } else if m == Saved::Text("Z"@) {
        'Z'
    } else {
        '+'
    }
}

/// The word that saves a shape.
pub open spec fn shape_saved(shape: char) -> Seq<char> {
    if shape == 'N' {
        "N"@
    } else if shape == 'X' {
        "X"@
    } else if shape == 'Z' {
        "Z"@
    } else {
        "+"@
    }
}

/// The mathematical value of a light grid.
pub struct LightsModel {
    /// The indices of the cells that have been switched an odd number of
    /// times, a cell's index being five times its row plus its column.
    pub switched: Set<int>,
    /// The shape that the next toggle applies.
    pub next: char,
}

impl LightsModel {
    /// True if the cell with index `i` lies on `shape` put with its centre on
    /// column `col` and row `row`.
    pub open spec fn under_shape(shape: char, col: int, row: int, i: int) -> bool {
        0 <= i < 20 && shape_has(shape, i % 5 - col, i / 5 - row)
    }

    /// The cells that are switched once the cells under `shape` have each
    /// changed sides.
    pub open spec fn flipped(self, shape: char, col: int, row: int) -> Set<int> {
        Set::new(
            |i: int| 0 <= i < 20 && (self.switched.contains(i) != Self::under_shape(shape, col, row, i)),
        )
    }

    /// The grid after a toggle on column `col` and row `row`: the next
    /// shape is applied there, and the shape after it becomes the next.
    pub open spec fn toggle(self, col: int, row: int) -> LightsModel {
        LightsModel { switched: self.flipped(self.next, col, row), next: shape_after(self.next) }
    }

    /// The grid after a toggle on column `col` and row `row` was taken
    /// back: the shape before the next becomes the next, and is applied.
    pub open spec fn untoggle(self, col: int, row: int) -> LightsModel {
        LightsModel {
            switched: self.flipped(shape_before(self.next), col, row),
            next: shape_before(self.next),
        }
    }

    /// The invariant of a grid: only cells of the grid are switched, and
    /// the next shape is one of the four.
    pub open spec fn wf(self) -> bool {
        &&& is_shape(self.next)
        &&& forall|i: int| self.switched.contains(i) ==> 0 <= i < 20
    }
}

/// A grid of five by four lights. A toggle switches the lights under one
/// of four shapes, which take turns.
///
/// The grid keeps the cells that have been switched an odd number of times.
/// A light counts as lit while its cell is not among them, and the grid is
/// done once every cell is.
pub struct Lights {
    cells: Vec<bool>,
    next: char,
}

impl View for Lights {
    type V = LightsModel;

    closed spec fn view(&self) -> LightsModel {
        LightsModel {
            switched: Set::new(|i: int| 0 <= i < self.cells@.len() && self.cells@[i]),
            next: self.next,
        }
    }
}

impl Lights {
    /// The invariant of the type: that of its value.
    pub closed spec fn wf(&self) -> bool {
        self.cells@.len() == 20 && is_shape(self.next)
    }

    /// What the invariant says of the value.
    pub proof fn lemma_wf(&self)
        requires
            self.wf(),
        ensures
            self@.wf(),
    {
    }

    /// Makes a grid on which no cell is switched and '+' is the next shape.
    pub fn new() -> (r: Lights)
        ensures
            r.wf(),
            r@ == (LightsModel { switched: Set::empty(), next: '+' }),
    {
        let mut cells: Vec<bool> = Vec::new();
        let mut i: usize = 0;
        while i < 20
            invariant
                i <= 20,
                cells@.len() == i,
                forall|j: int| 0 <= j < i ==> !cells@[j],
            decreases 20 - i,
        {
            cells.push(false);
            i += 1;
        }
        let r = Lights { cells, next: INIT_NEXT };
        proof {
            assert(r@.switched =~= Set::<int>::empty());
        }
        r
    }

    /// Makes a grid on which the cells among `switched` that lie on the grid
    /// are switched, with `next` as the next shape if it is a shape and '+'
    /// if it is not.
    pub fn from_parts(switched: &Vec<i32>, next: char) -> (r: Lights)
        ensures
            r.wf(),
            r@.switched == Set::new(|i: int| 0 <= i < 20 && switched@.contains(i as i32)),
            r@.next == (if is_shape(next) { next } else { '+' }),
    {
        let mut r = Lights::new();
        proof {
            assert forall|i: int| 0 <= i < 20 implies !r.cells@[i] by {
                assert(!r@.switched.contains(i));
            }
        }
        if next == '+' || next == 'N' || next == 'X' || next == 'Z' {
            r.next = next;
        }
        let mut k: usize = 0;
        while k < switched.len()
            invariant
                k <= switched@.len(),
                r.cells@.len() == 20,
                r.next == (if is_shape(next) { next } else { '+' }),
                forall|i: int|
                    0 <= i < 20 ==> r.cells@[i] == (exists|j: int|
                        0 <= j < k && #[trigger] switched@[j] == i),
            decreases switched@.len() - k,
        {
            let idx = switched[k];
            if 0 <= idx && idx < NUM_COLS * NUM_ROWS {
                r.cells.set(idx as usize, true);
            }
            proof {
                assert forall|i: int| 0 <= i < 20 implies r.cells@[i] == (exists|j: int|
                    0 <= j < k + 1 && #[trigger] switched@[j] == i) by {
                    if r.cells@[i] {
                        if i == idx {
                            assert(switched@[k as int] == i);
                        } else {
                            let j = choose|j: int| 0 <= j < k && #[trigger] switched@[j] == i;
                            assert(0 <= j < k + 1 && switched@[j] == i);
                        }
                    }
                }
            }
            k += 1;
        }
        proof {
            assert forall|i: int| 0 <= i < 20 implies r.cells@[i] == switched@.contains(i as i32) by {
                if switched@.contains(i as i32) {
                    let j = choose|j: int| 0 <= j < switched@.len() && switched@[j] == i as i32;
                    assert(switched@[j] == i);
                }
            }
            assert(r@.switched =~= Set::new(|i: int| 0 <= i < 20 && switched@.contains(i as i32)));
        }
        r
    }

    /// Returns the indices of the switched cells in rising order.
    pub fn switched(&self) -> (r: Vec<i32>)
        requires
            self.wf(),
        ensures
            r@ == rising(self@.switched, 20),
    {
        let mut r: Vec<i32> = Vec::new();
        let mut i: usize = 0;
        while i < 20
            invariant
                i <= 20,
                self.cells@.len() == 20,
                r@ == rising(self@.switched, i as int),
            decreases 20 - i,
        {
            if self.cells[i] {
                r.push(i as i32);
            }
            i += 1;
        }
        r
    }

    /// Returns the word that saves the next shape.
    pub fn next_word(&self) -> (r: &'static str)
        ensures
            r@ == shape_saved(self@.next),
    {
        if self.next == 'N' {
            "N"
        } else if self.next == 'X' {
            "X"
        } else if self.next == 'Z' {
            "Z"
        } else {
            "+"
        }
    }

    /// Returns true if the light in column `col` and row `row` is lit: its
    /// cell is not switched.
    pub fn is_lit(&self, col: i32, row: i32) -> (r: bool)
        requires
            self.wf(),
            0 <= col < 5,
            0 <= row < 4,
        ensures
            r == !self@.switched.contains(row * 5 + col),
    {
        !self.cells[(row * NUM_COLS + col) as usize]
    }

    /// Returns true if every cell is switched.
    pub fn is_done(&self) -> (r: bool)
        requires
            self.wf(),
        ensures
            r == (forall|i: int| 0 <= i < 20 ==> self@.switched.contains(i)),
    {
        let mut i: usize = 0;
        while i < 20
            invariant
                i <= 20,
                self.cells@.len() == 20,
                forall|j: int| 0 <= j < i ==> self.cells@[j],
            decreases 20 - i,
        {
            if !self.cells[i] {
                assert(!self@.switched.contains(i as int));
                return false;
            }
            i += 1;
        }
        true
    }

    /// Returns true if no cell is switched.
    pub fn is_clear(&self) -> (r: bool)
        requires
            self.wf(),
        ensures
            r == (self@.switched == Set::<int>::empty()),
    {
        let mut i: usize = 0;
        while i < 20
            invariant
                i <= 20,
                self.cells@.len() == 20,
                forall|j: int| 0 <= j < i ==> !self.cells@[j],
            decreases 20 - i,
        {
            if self.cells[i] {
                assert(self@.switched.contains(i as int));
                return false;
            }
            i += 1;
        }
        proof {
            assert(self@.switched =~= Set::<int>::empty());
        }
        true
    }

    /// Returns the shape that the next toggle applies.
    pub fn next_shape(&self) -> (r: char)
        ensures
            r == self@.next,
    {
        self.next
    }

    /// Switches the light `dx` columns and `dy` rows from column `col` and
    /// row `row`, if that cell lies on the grid.
    fn toggle_light(&mut self, col: i32, row: i32, dx: i32, dy: i32)
        requires
            old(self).wf(),
            -1 <= dx <= 1,
            -1 <= dy <= 1,
        ensures
            final(self).wf(),
            final(self).next == old(self).next,
            forall|i: int|
                0 <= i < 20 ==> #[trigger] final(self).cells@[i] == (old(self).cells@[i] != (i % 5
                    - col == dx && i / 5 - row == dy)),
    {
        let c: i64 = col as i64 + dx as i64;
        let r: i64 = row as i64 + dy as i64;
        if 0 <= c && c < 5 && 0 <= r && r < 4 {
            let index = (r * 5 + c) as usize;
            let lit = self.cells[index];
            self.cells.set(index, !lit);
        }
    }

    /// Switches the lights under `shape` put with its centre on column `col`
    /// and row `row`.
    fn toggle_shape(&mut self, shape: char, col: i32, row: i32)
        requires
            old(self).wf(),
            is_shape(shape),
        ensures
            final(self).wf(),
            final(self).next == old(self).next,
            final(self)@.switched == old(self)@.flipped(shape, col as int, row as int),
    {
        if shape == '+' {
            self.toggle_light(col, row, 0, 0);
            self.toggle_light(col, row, 1, 0);
            self.toggle_light(col, row, 0, 1);
            self.toggle_light(col, row, -1, 0);
            self.toggle_light(col, row, 0, -1);
        } else if shape == 'N' {
            self.toggle_light(col, row, 0, 0);
            self.toggle_light(col, row, -1, 0);
            self.toggle_light(col, row, -1, 1);
            self.toggle_light(col, row, 1, 0);
            self.toggle_light(col, row, 1, -1);
        } else if shape == 'X' {
            self.toggle_light(col, row, 0, 0);
            self.toggle_light(col, row, -1, -1);
            self.toggle_light(col, row, 1, -1);
            self.toggle_light(col, row, -1, 1);
            self.toggle_light(col, row, 1, 1);
        } else {
            self.toggle_light(col, row, 0, 0);
            self.toggle_light(col, row, 0, -1);
            self.toggle_light(col, row, -1, -1);
            self.toggle_light(col, row, 0, 1);
            self.toggle_light(col, row, 1, 1);
        }
        proof {
            assert forall|i: int| 0 <= i < 20 implies self.cells@[i] == (old(self).cells@[i]
                != LightsModel::under_shape(shape, col as int, row as int, i)) by {}
            assert(self@.switched =~= old(self)@.flipped(shape, col as int, row as int));
        }
    }

    /// Applies the next shape with its centre on column `col` and row `row`:
    /// each light under it that lies on the grid is switched. Then the shape
    /// after it becomes the next.
    pub fn toggle(&mut self, col: i32, row: i32)
        requires
            old(self).wf(),
        ensures
            final(self).wf(),
            final(self)@ == old(self)@.toggle(col as int, row as int),
    {
        let shape = self.next;
        self.toggle_shape(shape, col, row);
        self.next = if shape == '+' {
            'N'
        } else if shape == 'N' {
            'X'
        } else if shape == 'X' {
            'Z'
        } else {
            '+'
        };
    }

    /// Takes back a toggle on column `col` and row `row`: the shape before
    /// the next becomes the next, and is applied there.
    pub fn untoggle(&mut self, col: i32, row: i32)
        requires
            old(self).wf(),
        ensures
            final(self).wf(),
            final(self)@ == old(self)@.untoggle(col as int, row as int),
    {
        let shape = self.next;
        let before = if shape == '+' {
            'Z'
        } else if shape == 'N' {
            '+'
        } else if shape == 'X' {
            'N'
        } else {
            'X'
        };
        self.next = before;
        self.toggle_shape(before, col, row);
    }

    /// Switches every cell back and makes '+' the next shape.
    pub fn reset(&mut self)
        ensures
            final(self).wf(),
            final(self)@ == (LightsModel { switched: Set::empty(), next: '+' }),
    {
        let fresh = Lights::new();
        self.cells = fresh.cells;
        self.next = fresh.next;
    }
}

/// A toggle followed by its taking back leaves the switched cells and the
/// next shape as they were.
pub proof fn lemma_untoggle_restores(m: LightsModel, col: int, row: int)
    requires
        m.wf(),
    ensures
        m.toggle(col, row).wf(),
        m.toggle(col, row).untoggle(col, row) == m,
{
    let t = m.toggle(col, row);
    let u = t.untoggle(col, row);
    assert(shape_before(shape_after(m.next)) == m.next);
    assert(u.switched =~= m.switched);
}

/// Returns the shape that `value` stands for: '+' for no value and for
/// anything but the word of another shape.
pub fn shape_from_toml(value: Option<&toml::Value>) -> (r: char)
    ensures
        r == (match value {
            Some(v) => shape_read(value_model(*v)),
            None => '+',
        }),
        is_shape(r),
{
    let word = match value {
        Some(v) => match value_as_str(v) {
            Some(w) => w,
            None => {
                return '+';
            },
        },
        None => {
            return '+';
        },
    };
    if same_text(word, "N") {
        'N'
    } else if same_text(word, "X") {
        'X'
    } else if same_text(word, "Z") {
        'Z'
    } else {
        '+'
    }
}

} // verus!
