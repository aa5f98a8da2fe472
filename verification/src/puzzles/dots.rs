use crate::access::Access;
use crate::device::{grid_saved, Device, DeviceGrid, DeviceModel, PrimaryColor};
use crate::direction::Direction;
use crate::location::Location;
use crate::saved::{
    array_at, entry, new_table, no_entries, spec_to_array, spec_to_table, table_insert, table_value,
    to_table, value_model, values_model, Saved,
};
use vstd::prelude::*;

verus! {

/// The grid with the devices that the player cannot turn.
pub open spec fn spec_base_grid() -> DeviceModel {
    DeviceModel::empty(9, 5)
        .with(0, 0, Device::Emitter(PrimaryColor::Blue), Direction::East)
        .with(4, 0, Device::CrossChannel, Direction::East)
        .with(8, 0, Device::Detector(PrimaryColor::Blue), Direction::West)
        .with(0, 1, Device::Wall, Direction::East)
        .with(2, 1, Device::Wall, Direction::East)
        .with(3, 1, Device::Channel, Direction::South)
        .with(5, 1, Device::Channel, Direction::East)
        .with(6, 1, Device::CrossChannel, Direction::East)
        .with(8, 1, Device::Wall, Direction::East)
        .with(0, 2, Device::Emitter(PrimaryColor::Green), Direction::East)
        .with(1, 2, Device::CrossChannel, Direction::East)
        .with(4, 2, Device::CrossChannel, Direction::East)
        .with(7, 2, Device::CrossChannel, Direction::East)
        .with(8, 2, Device::Detector(PrimaryColor::Green), Direction::West)
        .with(0, 3, Device::Wall, Direction::East)
        .with(2, 3, Device::CrossChannel, Direction::East)
        .with(3, 3, Device::Channel, Direction::East)
        .with(5, 3, Device::Channel, Direction::South)
        .with(6, 3, Device::Wall, Direction::East)
        .with(8, 3, Device::Wall, Direction::East)
        .with(0, 4, Device::Emitter(PrimaryColor::Red), Direction::East)
        .with(4, 4, Device::CrossChannel, Direction::East)
        .with(8, 4, Device::Detector(PrimaryColor::Green), Direction::West)
}

/// The grid as it is laid out at first.
pub open spec fn spec_initial_grid() -> DeviceModel {
    spec_base_grid()
        .with(1, 1, Device::Mirror, Direction::South)
        .with(4, 1, Device::Mirror, Direction::South)
        .with(7, 1, Device::Mirror, Direction::South)
        .with(1, 3, Device::Mirror, Direction::East)
        .with(4, 3, Device::Mirror, Direction::East)
        .with(7, 3, Device::Mirror, Direction::East)
        .with(1, 4, Device::Mirror, Direction::South)
        .with(2, 4, Device::Splitter, Direction::East)
        .with(3, 4, Device::Mirror, Direction::South)
        .with(5, 4, Device::Mirror, Direction::South)
        .with(6, 4, Device::Mirror, Direction::East)
        .with(7, 4, Device::Mirror, Direction::South)
}

/// The grid of the solved puzzle; it counts as modified.
pub open spec fn spec_solved_grid() -> DeviceModel {
    DeviceModel {
        is_modified: true,
        ..spec_base_grid()
            .with(1, 0, Device::Mirror, Direction::South)
            .with(3, 0, Device::Mirror, Direction::East)
            .with(6, 0, Device::Mirror, Direction::South)
            .with(7, 0, Device::Mirror, Direction::East)
            .with(4, 1, Device::Mirror, Direction::East)
            .with(7, 1, Device::Mirror, Direction::East)
            .with(3, 2, Device::Mirror, Direction::East)
            .with(5, 2, Device::Mirror, Direction::East)
            .with(6, 2, Device::Splitter, Direction::South)
            .with(1, 3, Device::Mirror, Direction::South)
            .with(4, 3, Device::Mirror, Direction::East)
            .with(5, 4, Device::Mirror, Direction::South)
    }
}

/// Returns the grid with the devices that the player cannot turn.
pub fn base_grid() -> (grid: DeviceGrid)
    ensures
        grid@.wf(),
        grid@ == spec_base_grid(),
{
    let mut grid = DeviceGrid::new(9, 5);
    grid.set(0, 0, Device::Emitter(PrimaryColor::Blue), Direction::East);
    grid.set(4, 0, Device::CrossChannel, Direction::East);
    grid.set(8, 0, Device::Detector(PrimaryColor::Blue), Direction::West);
    grid.set(0, 1, Device::Wall, Direction::East);
    grid.set(2, 1, Device::Wall, Direction::East);
    grid.set(3, 1, Device::Channel, Direction::South);
    grid.set(5, 1, Device::Channel, Direction::East);
    grid.set(6, 1, Device::CrossChannel, Direction::East);
    grid.set(8, 1, Device::Wall, Direction::East);
    grid.set(0, 2, Device::Emitter(PrimaryColor::Green), Direction::East);
    grid.set(1, 2, Device::CrossChannel, Direction::East);
    grid.set(4, 2, Device::CrossChannel, Direction::East);
    grid.set(7, 2, Device::CrossChannel, Direction::East);
    grid.set(8, 2, Device::Detector(PrimaryColor::Green), Direction::West);
    grid.set(0, 3, Device::Wall, Direction::East);
    grid.set(2, 3, Device::CrossChannel, Direction::East);
    grid.set(3, 3, Device::Channel, Direction::East);
    grid.set(5, 3, Device::Channel, Direction::South);
    grid.set(6, 3, Device::Wall, Direction::East);
    grid.set(8, 3, Device::Wall, Direction::East);
    grid.set(0, 4, Device::Emitter(PrimaryColor::Red), Direction::East);
    grid.set(4, 4, Device::CrossChannel, Direction::East);
    grid.set(8, 4, Device::Detector(PrimaryColor::Green), Direction::West);
    grid
}

/// Returns the grid as it is laid out at first.
pub fn initial_grid() -> (grid: DeviceGrid)
    ensures
        grid@.wf(),
        grid@ == spec_initial_grid(),
{
    let mut grid = base_grid();
    grid.set(1, 1, Device::Mirror, Direction::South);
    grid.set(4, 1, Device::Mirror, Direction::South);
    grid.set(7, 1, Device::Mirror, Direction::South);
    grid.set(1, 3, Device::Mirror, Direction::East);
    grid.set(4, 3, Device::Mirror, Direction::East);
    grid.set(7, 3, Device::Mirror, Direction::East);
    grid.set(1, 4, Device::Mirror, Direction::South);
    grid.set(2, 4, Device::Splitter, Direction::East);
    grid.set(3, 4, Device::Mirror, Direction::South);
    grid.set(5, 4, Device::Mirror, Direction::South);
    grid.set(6, 4, Device::Mirror, Direction::East);
    grid.set(7, 4, Device::Mirror, Direction::South);
    grid
}

/// Returns the grid of the solved puzzle.
pub fn solved_grid() -> (grid: DeviceGrid)
    ensures
        grid@.wf(),
        grid@ == spec_solved_grid(),
{
    let mut grid = base_grid();
    grid.set(1, 0, Device::Mirror, Direction::South);
    grid.set(3, 0, Device::Mirror, Direction::East);
    grid.set(6, 0, Device::Mirror, Direction::South);
    grid.set(7, 0, Device::Mirror, Direction::East);
    grid.set(4, 1, Device::Mirror, Direction::East);
    grid.set(7, 1, Device::Mirror, Direction::East);
    grid.set(3, 2, Device::Mirror, Direction::East);
    grid.set(5, 2, Device::Mirror, Direction::East);
    grid.set(6, 2, Device::Splitter, Direction::South);
    grid.set(1, 3, Device::Mirror, Direction::South);
    grid.set(4, 3, Device::Mirror, Direction::East);
    grid.set(5, 4, Device::Mirror, Direction::South);
    grid.set_is_modified(true);
    grid
}

/// The mathematical value of the state of the laser puzzle.
pub struct DotsModel {
    pub access: Access,
    pub grid: DeviceModel,
}

/// The state that a saved value stands for: the progress under "access",
/// and the grid of the solved puzzle if the progress says that it is
/// solved, else the grid under "grid".
pub open spec fn dots_restored(m: Saved) -> DotsModel {
    let t = spec_to_table(m);
    let access = Access::from_table(t);
    DotsModel {
        access,
        grid: if access == Access::Solved {
            spec_solved_grid()
        } else {
            spec_initial_grid().restored(spec_to_array(entry(t, "grid"@)))
        },
    }
}

/// The table that saves the state: the progress under "access", and the
/// grid under "grid" if it is modified and the puzzle is not solved.
pub open spec fn dots_saved(m: DotsModel) -> Saved {
    let base = no_entries().insert("access"@, Saved::Text(m.access.spec_key()));
    if m.grid.is_modified && !m.access.spec_is_solved() {
        Saved::Table(base.insert("grid"@, grid_saved(m.grid)))
    } else {
        Saved::Table(base)
    }
}

/// The state of the laser puzzle: the player's progress and the grid of
/// devices.
pub struct DotsState {
    access: Access,
    grid: DeviceGrid,
}

impl View for DotsState {
    type V = DotsModel;

    closed spec fn view(&self) -> DotsModel {
        DotsModel { access: self.access, grid: self.grid@ }
    }
}

impl DotsState {
    /// The invariant of the type: that of the grid.
    pub open spec fn wf(&self) -> bool {
        self@.grid.wf()
    }

    /// Makes the state of a puzzle that the player has not seen.
    pub fn new() -> (s: DotsState)
        ensures
            s.wf(),
            s@ == (DotsModel { access: Access::Unvisited, grid: spec_initial_grid() }),
    {
        DotsState { access: Access::Unvisited, grid: initial_grid() }
    }

    /// Marks the puzzle solved and leaves the grid as it is.
    pub fn mark_solved(&mut self)
        ensures
            final(self)@ == (DotsModel { access: Access::Solved, ..old(self)@ }),
    {
        self.access = Access::Solved;
    }

    /// Marks the puzzle solved and lays out the grid of the solved puzzle.
    pub fn solve(&mut self)
        ensures
            final(self).wf(),
            final(self)@ == (DotsModel { access: Access::Solved, grid: spec_solved_grid() }),
    {
        self.access = Access::Solved;
        self.grid = solved_grid();
    }

    /// Returns the grid.
    pub fn grid(&self) -> (r: &DeviceGrid)
        ensures
            r@ == self@.grid,
    {
        &self.grid
    }

    /// Returns the grid, to be changed in place.
    pub fn grid_mut(&mut self) -> (r: &mut DeviceGrid)
        ensures
            r@ == old(self)@.grid,
            final(self)@ == (DotsModel { grid: final(r)@, ..old(self)@ }),
    {
        &mut self.grid
    }

    /// Returns the place of the puzzle in the game.
    pub fn location() -> (r: Location)
        ensures
            r == Location::ConnectTheDots,
    {
        Location::ConnectTheDots
    }

    /// Returns the player's progress.
    pub fn access(&self) -> (r: Access)
        ensures
            r == self@.access,
    {
        self.access
    }

    /// Returns the player's progress, to be changed in place.
    pub fn access_mut(&mut self) -> (r: &mut Access)
        ensures
            *r == old(self)@.access,
            final(self)@ == (DotsModel { access: *final(r), ..old(self)@ }),
            final(self).wf() == old(self).wf(),
    {
        &mut self.access
    }

    /// Returns true if the puzzle is solved.
    pub fn is_solved(&self) -> (r: bool)
        ensures
            r == self@.access.spec_is_solved(),
    {
        self.access.is_solved()
    }

    /// Returns true if the grid counts as modified.
    pub fn can_reset(&self) -> (r: bool)
        ensures
            r == self@.grid.is_modified,
    {
        self.grid.is_modified()
    }

    /// Lays out the grid as at first.
    pub fn reset(&mut self)
        ensures
            final(self).wf(),
            final(self)@ == (DotsModel { grid: spec_initial_grid(), ..old(self)@ }),
    {
        self.grid = initial_grid();
    }

    /// Returns the table that saves the state: the progress under "access",
    /// and the grid under "grid" if it is modified and the puzzle is not
    /// solved.
    pub fn to_toml(&self) -> (v: toml::Value)
        ensures
            value_model(v) == dots_saved(self@),
    {
        let mut table = new_table();
        table_insert(&mut table, "access", self.access.to_toml());
        if self.grid.is_modified() && !self.access.is_solved() {
            table_insert(&mut table, "grid", self.grid.to_toml());
        }
        table_value(table)
    }

    /// Returns the state that `value` stands for: the progress under
    /// "access", and the grid of the solved puzzle if the progress says that
    /// it is solved, else the grid under "grid", or the grid as laid out at
    /// first where that does not fit. A value that is no table stands for a
    /// puzzle that the player has not seen.
    pub fn from_toml(value: toml::Value) -> (s: DotsState)
        ensures
            s.wf(),
            s@ == dots_restored(value_model(value)),
    {
        let table = to_table(value);
        let access = Access::read_from(&table);
        let grid = if access == Access::Solved {
            solved_grid()
        } else {
            match array_at(&table, "grid") {
                Some(saved) => DeviceGrid::from_toml(saved, &initial_grid()),
                None => {
                    let none: Vec<toml::Value> = Vec::new();
                    proof {
                        assert(values_model(none@) =~= Seq::<Saved>::empty());
                    }
                    DeviceGrid::from_toml(&none, &initial_grid())
                },
            }
        };
        DotsState { access, grid }
    }
}

} // verus!
