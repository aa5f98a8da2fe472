use crate::direction::Direction;
use crate::saved::{
    array_value, lemma_values_push, same_text, spec_to_array, string_value, value_as_array,
    value_as_str, value_model, values_model, Saved,
};
use vstd::prelude::*;

verus! {

/// One of the three colours of a laser.
#[derive(Clone, Copy, Debug, PartialEq, Eq, Structural, Hash)]
pub enum PrimaryColor {
    Red,
    Green,
    Blue,
}

/// What a cell of a device grid can hold.
#[derive(Clone, Copy, Debug, PartialEq, Eq, Structural, Hash)]
pub enum Device {
    Wall,
    Channel,
    CrossChannel,
    Emitter(PrimaryColor),
    Detector(PrimaryColor),
    Mirror,
    Splitter,
    Mixer,
}

/// A cell of a device grid: empty, or a device and the way it faces.
pub type Cell = Option<(Device, Direction)>;

impl Device {
    /// True for the devices that the player can turn: mirrors, splitters
    /// and mixers.
    pub open spec fn spec_is_moveable(self) -> bool {
        self == Device::Mirror || self == Device::Splitter || self == Device::Mixer
    }

    /// The word under which the device is saved.
    pub open spec fn spec_key(self) -> Seq<char> {
        match self {
            Device::Wall => "W"@,
            Device::Channel => "C"@,
            Device::CrossChannel => "X"@,
            Device::Emitter(PrimaryColor::Red) => "Er"@,
            Device::Emitter(PrimaryColor::Green) => "Eg"@,
            Device::Emitter(PrimaryColor::Blue) => "Eb"@,
            Device::Detector(PrimaryColor::Red) => "Dr"@,
            Device::Detector(PrimaryColor::Green) => "Dg"@,
            Device::Detector(PrimaryColor::Blue) => "Db"@,
            Device::Mirror => "M"@,
            Device::Splitter => "S"@,
            Device::Mixer => "O"@,
        }
    }

    /// The device that a saved value stands for, if it is the word of one.
    pub open spec fn from_model(m: Saved) -> Option<Device> {
        if m == Saved::Text("W"@) {
            Some(Device::Wall)
        } else if m == Saved::Text("C"@) {
            Some(Device::Channel)
        } else if m == Saved::Text("X"@) {
            Some(Device::CrossChannel)
        } else if m == Saved::Text("Er"@) {
            Some(Device::Emitter(PrimaryColor::Red))
        } else if m == Saved::Text("Eg"@) {
            Some(Device::Emitter(PrimaryColor::Green))
        } else if m == Saved::Text("Eb"@) {
            Some(Device::Emitter(PrimaryColor::Blue))
        } else if m == Saved::Text("Dr"@) {
            Some(Device::Detector(PrimaryColor::Red))
        } else if m == Saved::Text("Dg"@) {
            Some(Device::Detector(PrimaryColor::Green))
        } else if m == Saved::Text("Db"@) {
            Some(Device::Detector(PrimaryColor::Blue))
        } else if m == Saved::Text("M"@) {
            Some(Device::Mirror)
        } else if m == Saved::Text("S"@) {
            Some(Device::Splitter)
        } else if m == Saved::Text("O"@) {
            Some(Device::Mixer)
        } else {
            None
        }
    }

    /// Returns true for the devices that the player can turn: mirrors,
    /// splitters and mixers.
    #[verifier::when_used_as_spec(spec_is_moveable)]
    pub fn is_moveable(self) -> (r: bool)
        ensures
            r == self.spec_is_moveable(),
    {
        match self {
            Device::Wall
            | Device::Channel
            | Device::CrossChannel
            | Device::Emitter(_)
            | Device::Detector(_) => false,
            Device::Mirror | Device::Splitter | Device::Mixer => true,
        }
    }

    /// Returns the word under which the device is saved.
    pub fn key(self) -> (r: &'static str)
        ensures
            r@ == self.spec_key(),
    {
        match self {
            Device::Wall => "W",
            Device::Channel => "C",
            Device::CrossChannel => "X",
            Device::Emitter(PrimaryColor::Red) => "Er",
            Device::Emitter(PrimaryColor::Green) => "Eg",
            Device::Emitter(PrimaryColor::Blue) => "Eb",
            Device::Detector(PrimaryColor::Red) => "Dr",
            Device::Detector(PrimaryColor::Green) => "Dg",
            Device::Detector(PrimaryColor::Blue) => "Db",
            Device::Mirror => "M",
            Device::Splitter => "S",
            Device::Mixer => "O",
        }
    }

    /// Returns the device that `value` stands for, if it holds the word of
    /// one.
    pub fn from_toml(value: &toml::Value) -> (r: Option<Device>)
        ensures
            r == Self::from_model(value_model(*value)),
    {
        let word = match value_as_str(value) {
            Some(w) => w,
            None => {
                return None;
            },
        };
        if same_text(word, "W") {
            Some(Device::Wall)
        } else if same_text(word, "C") {
            Some(Device::Channel)
        } else if same_text(word, "X") {
            Some(Device::CrossChannel)
        } else if same_text(word, "Er") {
            Some(Device::Emitter(PrimaryColor::Red))
        } else if same_text(word, "Eg") {
            Some(Device::Emitter(PrimaryColor::Green))
        } else if same_text(word, "Eb") {
            Some(Device::Emitter(PrimaryColor::Blue))
        } else if same_text(word, "Dr") {
            Some(Device::Detector(PrimaryColor::Red))
        } else if same_text(word, "Dg") {
            Some(Device::Detector(PrimaryColor::Green))
        } else if same_text(word, "Db") {
            Some(Device::Detector(PrimaryColor::Blue))
        } else if same_text(word, "M") {
            Some(Device::Mirror)
        } else if same_text(word, "S") {
            Some(Device::Splitter)
        } else if same_text(word, "O") {
            Some(Device::Mixer)
        } else {
            None
        }
    }
}

/// The mathematical value of a device grid.
pub struct DeviceModel {
    pub num_cols: int,
    pub num_rows: int,
    /// The cells row by row.
    pub cells: Seq<Cell>,
    pub is_modified: bool,
}

/// True if the cell holds a device that the player cannot turn.
pub open spec fn is_fixed(cell: Cell) -> bool {
    match cell {
        Some((device, _)) => !device.spec_is_moveable(),
        None => false,
    }
}

/// How many of the cells hold the device `device`.
pub open spec fn device_count(cells: Seq<Cell>, device: Device) -> nat
    decreases cells.len(),
{
    if cells.len() == 0 {
        0
    } else {
        device_count(cells.drop_last(), device) + (match cells.last() {
            Some((d, _)) => if d == device {
                1nat
            } else {
                0nat
            },
            None => 0nat,
        })
    }
}

/// The list that saves one cell: empty for an empty cell, else the word of
/// the device and the word of its direction.
pub open spec fn cell_saved(cell: Cell) -> Saved {
    match cell {
        Some((device, dir)) => Saved::Array(
            seq![Saved::Text(device.spec_key()), Saved::Text(dir.spec_key())],
        ),
        None => Saved::Array(Seq::empty()),
    }
}

/// The list that saves a grid: for each cell, row by row, the list that
/// saves it.
pub open spec fn grid_saved(m: DeviceModel) -> Saved {
    Saved::Array(Seq::new(m.cells.len(), |i: int| cell_saved(m.cells[i])))
}

/// The cell that a saved value stands for: a device and its direction where
/// the value is a list that begins with the word of a device and holds one
/// more value, else an empty cell.
pub open spec fn cell_read(m: Saved) -> Cell {
    let a = spec_to_array(m);
    if a.len() < 2 {
        None
    } else {
        match Device::from_model(a[0]) {
            Some(device) => Some((device, Direction::from_model(a[1]))),
            None => None,
        }
    }
}

/// The cells that a saved list stands for, one by one.
pub open spec fn cells_read(saved: Seq<Saved>) -> Seq<Cell> {
    Seq::new(saved.len(), |i: int| cell_read(saved[i]))
}

impl DeviceModel {
    /// The grid of the given size without devices.
    pub open spec fn empty(num_cols: int, num_rows: int) -> DeviceModel {
        DeviceModel {
            num_cols,
            num_rows,
            cells: Seq::new((num_cols * num_rows) as nat, |i: int| None),
            is_modified: false,
        }
    }

    /// The grid with `device`, facing `dir`, in column `col` of row `row`.
    pub open spec fn with(self, col: int, row: int, device: Device, dir: Direction) -> DeviceModel {
        DeviceModel {
            cells: self.cells.update(row * self.num_cols + col, Some((device, dir))),
            ..self
        }
    }

    /// The invariant of a grid: it has a cell for each column of each row.
    pub open spec fn wf(self) -> bool {
        &&& 0 <= self.num_cols <= i32::MAX
        &&& 0 <= self.num_rows <= i32::MAX
        &&& self.cells.len() == self.num_cols * self.num_rows
    }

    /// True if the cell lies on the grid.
    pub open spec fn holds(self, col: int, row: int) -> bool {
        0 <= col < self.num_cols && 0 <= row < self.num_rows
    }

    /// The cell in column `col` of row `row`; an empty cell off the grid.
    pub open spec fn cell(self, col: int, row: int) -> Cell {
        if self.holds(col, row) {
            self.cells[row * self.num_cols + col]
        } else {
            None
        }
    }

    /// The grid after the device in column `col` of row `row` was turned by
    /// a quarter turn clockwise; unchanged where there is none that the
    /// player can turn.
    pub open spec fn rotated(self, col: int, row: int) -> DeviceModel {
        match self.cell(col, row) {
            Some((device, dir)) => if device.spec_is_moveable() {
                DeviceModel {
                    cells: self.cells.update(
                        row * self.num_cols + col,
                        Some((device, dir.spec_rotated_cw())),
                    ),
                    is_modified: true,
                    ..self
                }
            } else {
                self
            },
            None => self,
        }
    }

    /// True if the saved cells can have come from this grid by turning and
    /// moving devices: there are as many; the fixed devices are those of the
    /// grid, each on its cell; and there are as many mirrors, splitters and
    /// mixers as the grid has.
    pub open spec fn fits(self, cells: Seq<Cell>) -> bool {
        &&& cells.len() == self.cells.len()
        &&& forall|i: int|
            0 <= i < cells.len() && (is_fixed(#[trigger] cells[i]) || is_fixed(self.cells[i]))
                ==> cells[i] == self.cells[i]
        &&& device_count(cells, Device::Mirror) == device_count(self.cells, Device::Mirror)
        &&& device_count(cells, Device::Splitter) == device_count(self.cells, Device::Splitter)
        &&& device_count(cells, Device::Mixer) == device_count(self.cells, Device::Mixer)
    }

    /// The grid that a saved list stands for, `self` being the grid as it is
    /// laid out at first: the saved cells if they fit, counted as modified
    /// if they differ from those of `self`; else `self`.
    pub open spec fn restored(self, saved: Seq<Saved>) -> DeviceModel {
        let cells = cells_read(saved);
        if self.fits(cells) {
            DeviceModel { cells, is_modified: cells != self.cells, ..self }
        } else {
            self
        }
    }
}

/// Returns true if the two cells hold the same.
fn same_cell(a: Cell, b: Cell) -> (r: bool)
    ensures
        r == (a == b),
{
    match (a, b) {
        (None, None) => true,
        (Some((d1, r1)), Some((d2, r2))) => d1 == d2 && r1 == r2,
        _ => false,
    }
}

/// Returns true if the cell holds a device that the player cannot turn.
fn cell_is_fixed(cell: Cell) -> (r: bool)
    ensures
        r == is_fixed(cell),
{
    match cell {
        Some((device, _)) => !device.is_moveable(),
        None => false,
    }
}

/// Returns how many of the cells hold the device `device`.
fn count_devices(cells: &Vec<Cell>, device: Device) -> (n: usize)
    ensures
        n == device_count(cells@, device),
{
    let mut n: usize = 0;
    let mut i: usize = 0;
    proof {
        assert(cells@.subrange(0, 0) =~= Seq::<Cell>::empty());
    }
    while i < cells.len()
        invariant
            i <= cells@.len(),
            n <= i,
            n == device_count(cells@.subrange(0, i as int), device),
        decreases cells@.len() - i,
    {
        proof {
            assert(cells@.subrange(0, i + 1).drop_last() =~= cells@.subrange(0, i as int));
        }
        match cells[i] {
            Some((d, _)) => {
                if d == device {
                    n += 1;
                }
            },
            None => {},
        }
        i += 1;
    }
    proof {
        assert(cells@.subrange(0, cells@.len() as int) =~= cells@);
    }
    n
}

/// Returns the cell that `value` stands for.
fn read_cell(value: &toml::Value) -> (r: Cell)
    ensures
        r == cell_read(value_model(*value)),
{
    match value_as_array(value) {
        Some(a) => {
            if a.len() < 2 {
                None
            } else {
                assert(values_model(a@)[0] == value_model(a@[0]));
                assert(values_model(a@)[1] == value_model(a@[1]));
                match Device::from_toml(&a[0]) {
                    Some(device) => Some((device, Direction::from_toml(&a[1]))),
                    None => None,
                }
            }
        },
        None => None,
    }
}

/// A grid of cells that hold devices, each facing one way.
pub struct DeviceGrid {
    num_cols: usize,
    num_rows: usize,
    grid: Vec<Cell>,
    is_modified: bool,
}

impl View for DeviceGrid {
    type V = DeviceModel;

    closed spec fn view(&self) -> DeviceModel {
        DeviceModel {
            num_cols: self.num_cols as int,
            num_rows: self.num_rows as int,
            cells: self.grid@,
            is_modified: self.is_modified,
        }
    }
}

impl Clone for DeviceGrid {
    fn clone(&self) -> (r: Self)
        ensures
            r@ == self@,
    {
        let mut grid: Vec<Cell> = Vec::new();
        let mut i: usize = 0;
        while i < self.grid.len()
            invariant
                i <= self.grid@.len(),
                grid@ == self.grid@.subrange(0, i as int),
            decreases self.grid@.len() - i,
        {
            grid.push(self.grid[i]);
            proof {
                assert(grid@ =~= self.grid@.subrange(0, i + 1));
            }
            i += 1;
        }
        proof {
            assert(grid@ =~= self.grid@);
        }
        DeviceGrid {
            num_cols: self.num_cols,
            num_rows: self.num_rows,
            grid,
            is_modified: self.is_modified,
        }
    }
}

impl DeviceGrid {
    /// Makes an empty grid of `num_cols` columns and `num_rows` rows.
    pub fn new(num_cols: usize, num_rows: usize) -> (g: DeviceGrid)
        requires
            num_cols <= i32::MAX,
            num_rows <= i32::MAX,
            num_cols * num_rows <= usize::MAX,
        ensures
            g@.wf(),
            g@ == DeviceModel::empty(num_cols as int, num_rows as int),
    {
        let total = num_cols * num_rows;
        let mut grid: Vec<Cell> = Vec::new();
        let mut i: usize = 0;
        while i < total
            invariant
                i <= total,
                grid@.len() == i,
                forall|j: int| 0 <= j < i ==> grid@[j] is None,
            decreases total - i,
        {
            grid.push(None);
            i += 1;
        }
        let g = DeviceGrid { num_cols, num_rows, grid, is_modified: false };
        proof {
            assert(g@.cells =~= DeviceModel::empty(num_cols as int, num_rows as int).cells);
        }
        g
    }

    /// Returns the number of columns and the number of rows.
    pub fn size(&self) -> (r: (i32, i32))
        requires
            self@.wf(),
        ensures
            r.0 == self@.num_cols,
            r.1 == self@.num_rows,
    {
        (self.num_cols as i32, self.num_rows as i32)
    }

    /// Returns true if a device has been turned since the grid was laid
    /// out.
    pub fn is_modified(&self) -> (r: bool)
        ensures
            r == self@.is_modified,
    {
        self.is_modified
    }

    /// Says whether the grid counts as modified.
    pub fn set_is_modified(&mut self, is_modified: bool)
        ensures
            final(self)@ == (DeviceModel { is_modified, ..old(self)@ }),
    {
        self.is_modified = is_modified;
    }

    /// Returns the index of the cell in column `col` of row `row`.
    fn index(&self, col: i32, row: i32) -> (i: usize)
        requires
            self@.wf(),
            self@.holds(col as int, row as int),
        ensures
            i == row * self@.num_cols + col,
            i < self@.cells.len(),
    {
        proof {
            let c = self.num_cols as int;
            let r = self.num_rows as int;
            assert(self.grid@.len() == c * r);
            assert(self.grid@.len() == self.grid.len());
            assert(row * c + col < c * r && 0 <= row * c <= c * r) by (nonlinear_arith)
                requires
                    0 <= col < c,
                    0 <= row < r,
            ;
            assert((row as usize) * self.num_cols == row * c);
        }
        let r: usize = row as usize;
        let c: usize = col as usize;
        r * self.num_cols + c
    }

    /// Returns true if the cell lies on the grid.
    fn holds(&self, col: i32, row: i32) -> (r: bool)
        requires
            self@.wf(),
        ensures
            r == self@.holds(col as int, row as int),
    {
        col >= 0 && row >= 0 && (col as usize) < self.num_cols && (row as usize) < self.num_rows
    }

    /// Returns the device in column `col` of row `row` and the way it
    /// faces; `None` for an empty cell and for a cell off the grid.
    pub fn get(&self, col: i32, row: i32) -> (r: Cell)
        requires
            self@.wf(),
        ensures
            r == self@.cell(col as int, row as int),
    {
        if self.holds(col, row) {
            let i = self.index(col, row);
            self.grid[i]
        } else {
            None
        }
    }

    /// Puts `device`, facing `dir`, on the cell in column `col` of row
    /// `row`.
    pub fn set(&mut self, col: i32, row: i32, device: Device, dir: Direction)
        requires
            old(self)@.wf(),
            old(self)@.holds(col as int, row as int),
        ensures
            final(self)@.wf(),
            final(self)@ == old(self)@.with(col as int, row as int, device, dir),
    {
        let i = self.index(col, row);
        self.grid.set(i, Some((device, dir)));
    }

    /// Turns the device in column `col` of row `row` by a quarter turn
    /// clockwise, if the player can turn it; the grid then counts as
    /// modified.
    pub fn rotate(&mut self, col: i32, row: i32)
        requires
            old(self)@.wf(),
        ensures
            final(self)@.wf(),
            final(self)@ == old(self)@.rotated(col as int, row as int),
    {
        if self.holds(col, row) {
            let i = self.index(col, row);
            match self.grid[i] {
                Some((device, dir)) => {
                    if device.is_moveable() {
                        self.grid.set(i, Some((device, dir.rotated_cw())));
                        self.is_modified = true;
                    }
                },
                None => {},
            }
        }
    }

    /// Returns the list that saves the grid: for each cell, row by row, a
    /// list that is empty for an empty cell and else holds the word of the
    /// device and the word of its direction.
    #[verifier::loop_isolation(false)]
    pub fn to_toml(&self) -> (v: toml::Value)
        ensures
            value_model(v) == grid_saved(self@),
    {
        let mut list: Vec<toml::Value> = Vec::new();
        let mut i: usize = 0;
        while i < self.grid.len()
            invariant
                i <= self.grid@.len(),
                values_model(list@) == Seq::new(i as nat, |j: int| cell_saved(self.grid@[j])),
            decreases self.grid@.len() - i,
        {
            let mut cell: Vec<toml::Value> = Vec::new();
            match self.grid[i] {
                Some((device, dir)) => {
                    let d = string_value(device.key());
                    let r = dir.to_toml();
                    cell.push(d);
                    cell.push(r);
                    proof {
                        assert(values_model(cell@) =~= seq![
                            Saved::Text(device.spec_key()),
                            Saved::Text(dir.spec_key()),
                        ]);
                    }
                },
                None => {
                    proof {
                        assert(values_model(cell@) =~= Seq::<Saved>::empty());
                    }
                },
            }
            let ghost before = list@;
            let saved = array_value(cell);
            list.push(saved);
            proof {
                lemma_values_push(before, saved);
                assert(values_model(list@) =~= Seq::new(
                    (i + 1) as nat,
                    |j: int| cell_saved(self.grid@[j]),
                ));
            }
            i += 1;
        }
        proof {
            assert(Seq::new(self.grid@.len() as nat, |j: int| cell_saved(self.grid@[j])) =~= Seq::new(
                self@.cells.len(),
                |i: int| cell_saved(self@.cells[i]),
            ));
        }
        array_value(list)
    }

    /// Returns the grid that the list `saved` stands for, `default` being
    /// the grid as it is laid out at first. Returns a copy of `default`
    /// where the saved cells do not fit.
    #[verifier::loop_isolation(false)]
    pub fn from_toml(saved: &Vec<toml::Value>, default: &DeviceGrid) -> (g: DeviceGrid)
        requires
            default@.wf(),
        ensures
            g@.wf(),
            g@ == default@.restored(values_model(saved@)),
    {
        let ghost want = cells_read(values_model(saved@));
        if saved.len() != default.grid.len() {
            return default.clone();
        }
        let mut cells: Vec<Cell> = Vec::new();
        let mut i: usize = 0;
        while i < saved.len()
            invariant
                i <= saved@.len(),
                cells@ == want.subrange(0, i as int),
                forall|j: int|
                    0 <= j < i && (is_fixed(#[trigger] want[j]) || is_fixed(default@.cells[j]))
                        ==> want[j] == default@.cells[j],
            decreases saved@.len() - i,
        {
            let cell = read_cell(&saved[i]);
            assert(values_model(saved@)[i as int] == value_model(saved@[i as int]));
            assert(cell == want[i as int]);
            if (cell_is_fixed(cell) || cell_is_fixed(default.grid[i])) && !same_cell(
                cell,
                default.grid[i],
            ) {
                return default.clone();
            }
            cells.push(cell);
            proof {
                assert(cells@ =~= want.subrange(0, i + 1));
            }
            i += 1;
        }
        proof {
            assert(cells@ =~= want);
        }
        if count_devices(&cells, Device::Mirror) != count_devices(&default.grid, Device::Mirror)
            || count_devices(&cells, Device::Splitter) != count_devices(
            &default.grid,
            Device::Splitter,
        ) || count_devices(&cells, Device::Mixer) != count_devices(&default.grid, Device::Mixer) {
            return default.clone();
        }
        let mut same = true;
        let mut k: usize = 0;
        proof {
            assert(cells@.subrange(0, 0) =~= default.grid@.subrange(0, 0));
        }
        while k < cells.len()
            invariant
                k <= cells@.len(),
                cells@.len() == default.grid@.len(),
                same == (cells@.subrange(0, k as int) == default.grid@.subrange(0, k as int)),
            decreases cells@.len() - k,
        {
            let alike = same_cell(cells[k], default.grid[k]);
            proof {
                let a = cells@.subrange(0, k + 1);
                let b = default.grid@.subrange(0, k + 1);
                assert(a.drop_last() =~= cells@.subrange(0, k as int));
                assert(b.drop_last() =~= default.grid@.subrange(0, k as int));
                if same && alike {
                    assert(a =~= b);
                } else if !alike {
                    assert(a[k as int] != b[k as int]);
                } else {
                    assert(a.drop_last() != b.drop_last());
                }
            }
            if !alike {
                same = false;
            }
            k += 1;
        }
        proof {
            assert(cells@.subrange(0, cells@.len() as int) =~= cells@);
            assert(default.grid@.subrange(0, cells@.len() as int) =~= default.grid@);
        }
        DeviceGrid {
            num_cols: default.num_cols,
            num_rows: default.num_rows,
            grid: cells,
            is_modified: !same,
        }
    }
}

} // verus!
