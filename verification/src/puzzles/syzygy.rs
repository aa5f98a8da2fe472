use crate::access::Access;
use crate::column::{
    column_at_start, columns_at_start, columns_ok, columns_restored, columns_saved, with_positions,
    Column, ColumnModel, Columns,
};
use crate::device::{grid_saved, Device, DeviceGrid, DeviceModel, PrimaryColor};
use crate::direction::Direction;
use crate::ice::grid::{GridModel, Object, ObjectGrid};
use crate::ice::symbol::Symbol;
use crate::ice::transform::Transform;
use crate::lights::{rising, shape_from_toml, shape_read, shape_saved, Lights, LightsModel};
use crate::location::Location;
use crate::plane::{pipes_ok, pipes_saved, PlaneGrid, PlaneModel, PlaneObj};
use crate::point::{Point, Rect};
use crate::saved::{
    array_at, array_value, entry, integer_value, lemma_values_push, new_table, no_entries, pop_array,
    pop_table, same_text, spec_to_array, spec_to_i32, spec_to_table, string_value, table_get,
    table_insert, table_model, table_value, to_i32, value_as_str, value_model, values_model, Saved,
};
use vstd::prelude::*;

verus! {

/// One of the six stages of the last puzzle, in their order.
#[derive(Clone, Copy, Debug, PartialEq, Eq, Structural)]
pub enum SyzygyStage {
    Yttris,
    Argony,
    Elinsa,
    Ugrent,
    Relyng,
    Mezure,
}

impl SyzygyStage {
    /// The word under which the stage is saved.
    pub open spec fn spec_key(self) -> Seq<char> {
        match self {
            SyzygyStage::Yttris => "yttris"@,
            SyzygyStage::Argony => "argony"@,
            SyzygyStage::Elinsa => "elinsa"@,
            SyzygyStage::Ugrent => "ugrent"@,
            SyzygyStage::Relyng => "relyng"@,
            SyzygyStage::Mezure => "mezure"@,
        }
    }

    /// The stage that a saved value stands for: the first for anything but
    /// the word of another stage.
    pub open spec fn from_model(m: Saved) -> SyzygyStage {
        if m == Saved::Text("argony"@) {
            SyzygyStage::Argony
        } else if m == Saved::Text("elinsa"@) {
            SyzygyStage::Elinsa
        } else if m == Saved::Text("ugrent"@) {
            SyzygyStage::Ugrent
        } else if m == Saved::Text("relyng"@) {
            SyzygyStage::Relyng
        } else if m == Saved::Text("mezure"@) {
            SyzygyStage::Mezure
        } else {
            SyzygyStage::Yttris
        }
    }

    /// Returns the stage with which the puzzle begins.
    pub fn first() -> (r: SyzygyStage)
        ensures
            r == SyzygyStage::Yttris,
    {
        SyzygyStage::Yttris
    }

    /// Returns the word under which the stage is saved.
    pub fn key(self) -> (r: &'static str)
        ensures
            r@ == self.spec_key(),
    {
        match self {
            SyzygyStage::Yttris => "yttris",
            SyzygyStage::Argony => "argony",
            SyzygyStage::Elinsa => "elinsa",
            SyzygyStage::Ugrent => "ugrent",
            SyzygyStage::Relyng => "relyng",
            SyzygyStage::Mezure => "mezure",
        }
    }

    /// Returns the value that saves the stage: its word.
    pub fn to_toml(self) -> (v: toml::Value)
        ensures
            value_model(v) == Saved::Text(self.spec_key()),
    {
        string_value(self.key())
    }

    /// Returns the stage that `value` stands for: the first for no value
    /// and for anything but the word of another stage.
    pub fn from_toml(value: Option<&toml::Value>) -> (r: SyzygyStage)
        ensures
            r == (match value {
                Some(v) => Self::from_model(value_model(*v)),
                None => SyzygyStage::Yttris,
            }),
    {
        let word = match value {
            Some(v) => match value_as_str(v) {
                Some(w) => w,
                None => {
                    return SyzygyStage::Yttris;
                },
            },
            None => {
                return SyzygyStage::Yttris;
            },
        };
        if same_text(word, "argony") {
            SyzygyStage::Argony
        } else if same_text(word, "elinsa") {
            SyzygyStage::Elinsa
        } else if same_text(word, "ugrent") {
            SyzygyStage::Ugrent
        } else if same_text(word, "relyng") {
            SyzygyStage::Relyng
        } else if same_text(word, "mezure") {
            SyzygyStage::Mezure
        } else {
            SyzygyStage::Yttris
        }
    }
}

/// A stage that was saved is read back as itself.
pub proof fn lemma_stage_saved(stage: SyzygyStage)
    ensures
        SyzygyStage::from_model(Saved::Text(stage.spec_key())) == stage,
{
    reveal_strlit("yttris");
    reveal_strlit("argony");
    reveal_strlit("elinsa");
    reveal_strlit("ugrent");
    reveal_strlit("relyng");
    reveal_strlit("mezure");
    assert("yttris"@[0] == 'y' && "argony"@[0] == 'a' && "elinsa"@[0] == 'e' && "ugrent"@[0] == 'u'
        && "relyng"@[0] == 'r' && "mezure"@[0] == 'm');
}

/// The six columns of the first stage, each in its starting position. A
/// column's links name the other columns that turn with it; the column
/// itself is not among them, since it turns by the rotation asked for.
pub open spec fn spec_yttris_columns() -> Seq<ColumnModel> {
    seq![
        column_at_start("UNDO"@, -1, 3, seq![(4usize, 2i32), (3usize, 3i32)]),
        column_at_start("OPEN"@, -1, 2, seq![(3usize, -2i32), (4usize, 3i32)]),
        column_at_start("FILE"@, -1, 1, seq![(0usize, 2i32), (5usize, 3i32)]),
        column_at_start("BOLT"@, -1, 0, seq![(5usize, -2i32), (1usize, -3i32)]),
        column_at_start("PICK"@, -1, 1, seq![(0usize, -3i32)]),
        column_at_start("KEYS"@, -1, 3, seq![(2usize, -2i32), (4usize, 3i32)]),
    ]
}

/// Returns the six columns of the first stage, each in its starting
/// position. A column's links name the other columns that turn with it; the
/// column itself is not among them, since it turns by the rotation asked
/// for.
pub fn yttris_columns() -> (r: Columns)
    ensures
        r.wf(),
        r@ == spec_yttris_columns(),
{
    proof {
        reveal_strlit("UNDO");
        reveal_strlit("OPEN");
        reveal_strlit("FILE");
        reveal_strlit("BOLT");
        reveal_strlit("PICK");
        reveal_strlit("KEYS");
    }
    let mut columns: Vec<Column> = Vec::new();
    let links: Vec<(usize, i32)> = vec![(4, 2), (3, 3)];
    proof {
        assert(links@ =~= seq![(4usize, 2i32), (3usize, 3i32)]);
    }
    columns.push(Column::new("UNDO", -1, 3, links));
    let links: Vec<(usize, i32)> = vec![(3, -2), (4, 3)];
    proof {
        assert(links@ =~= seq![(3usize, -2i32), (4usize, 3i32)]);
    }
    columns.push(Column::new("OPEN", -1, 2, links));
    let links: Vec<(usize, i32)> = vec![(0, 2), (5, 3)];
    proof {
        assert(links@ =~= seq![(0usize, 2i32), (5usize, 3i32)]);
    }
    columns.push(Column::new("FILE", -1, 1, links));
    let links: Vec<(usize, i32)> = vec![(5, -2), (1, -3)];
    proof {
        assert(links@ =~= seq![(5usize, -2i32), (1usize, -3i32)]);
    }
    columns.push(Column::new("BOLT", -1, 0, links));
    let links: Vec<(usize, i32)> = vec![(0, -3)];
    proof {
        assert(links@ =~= seq![(0usize, -3i32)]);
    }
    columns.push(Column::new("PICK", -1, 1, links));
    let links: Vec<(usize, i32)> = vec![(2, -2), (4, 3)];
    proof {
        assert(links@ =~= seq![(2usize, -2i32), (4usize, 3i32)]);
    }
    columns.push(Column::new("KEYS", -1, 3, links));
    proof {
        assert(Seq::new(columns@.len(), |c: int| columns@[c]@) =~= spec_yttris_columns());
    }
    Columns::new(columns)
}

/// The ice grid of the second stage as it is laid out at first.
pub open spec fn spec_argony_grid() -> GridModel {
    let q_goal = Symbol::CyanQ(Transform::spec_identity());
    let u_goal = Symbol::CyanU(Transform::spec_identity());
    let a_goal = Symbol::CyanA(Transform::spec_identity());
    let d_goal = Symbol::CyanQ(Transform::spec_identity().spec_flipped_vert());
    let q_trans = Transform::spec_identity().spec_rotated_cw().spec_rotated_cw();
    let u_trans = Transform::spec_identity().spec_flipped_vert();
    let a_trans = Transform::spec_identity().spec_rotated_cw().spec_rotated_cw();
    let d_trans = Transform::spec_identity().spec_flipped_vert();
    GridModel {
        num_cols: 11,
        num_rows: 5,
        objects: Map::<Point, Object>::empty().insert(
            Point { x: 5, y: 0 },
            Object::Wall,
        ).insert(
            Point { x: 1, y: 1 },
            Object::Wall,
        ).insert(
            Point { x: 5, y: 1 },
            Object::Wall,
        ).insert(
            Point { x: 1, y: 2 },
            Object::Rotator,
        ).insert(
            Point { x: 5, y: 2 },
            Object::Reflector(false),
        ).insert(
            Point { x: 10, y: 2 },
            Object::Wall,
        ).insert(
            Point { x: 1, y: 3 },
            Object::Wall,
        ).insert(
            Point { x: 5, y: 3 },
            Object::Wall,
        ).insert(
            Point { x: 10, y: 3 },
            Object::PushPop(Direction::South),
        ).insert(
            Point { x: 2, y: 4 },
            Object::Goal(q_goal),
        ).insert(
            Point { x: 4, y: 4 },
            Object::Goal(u_goal),
        ).insert(
            Point { x: 5, y: 4 },
            Object::Wall,
        ).insert(
            Point { x: 6, y: 4 },
            Object::Goal(a_goal),
        ).insert(
            Point { x: 8, y: 4 },
            Object::Goal(d_goal),
        ),
        ice_blocks: Map::<Point, Symbol>::empty().insert(
            Point { x: 6, y: 0 },
            Symbol::CyanQ(q_trans),
        ).insert(
            Point { x: 7, y: 0 },
            Symbol::CyanA(a_trans),
        ).insert(
            Point { x: 8, y: 0 },
            Symbol::CyanU(u_trans),
        ).insert(
            Point { x: 9, y: 0 },
            Symbol::CyanQ(d_trans),
        ),
        is_modified: false,
    }
}

/// Returns the ice grid of the second stage as it is laid out at first.
pub fn argony_initial_grid() -> (grid: ObjectGrid)
    ensures
        grid.wf(),
        grid@ == spec_argony_grid(),
{
    let q_goal = Symbol::CyanQ(Transform::identity());
    let u_goal = Symbol::CyanU(Transform::identity());
    let a_goal = Symbol::CyanA(Transform::identity());
    let d_goal = Symbol::CyanQ(Transform::identity().flipped_vert());
    let mut grid = ObjectGrid::new(11, 5);
    grid.add_object(5, 0, Object::Wall);
    grid.add_object(1, 1, Object::Wall);
    grid.add_object(5, 1, Object::Wall);
    grid.add_object(1, 2, Object::Rotator);
    grid.add_object(5, 2, Object::Reflector(false));
    grid.add_object(10, 2, Object::Wall);
    grid.add_object(1, 3, Object::Wall);
    grid.add_object(5, 3, Object::Wall);
    grid.add_object(10, 3, Object::PushPop(Direction::South));
    grid.add_object(2, 4, Object::Goal(q_goal));
    grid.add_object(4, 4, Object::Goal(u_goal));
    grid.add_object(5, 4, Object::Wall);
    grid.add_object(6, 4, Object::Goal(a_goal));
    grid.add_object(8, 4, Object::Goal(d_goal));
    let q_trans = Transform::identity().rotated_cw().rotated_cw();
    let u_trans = Transform::identity().flipped_vert();
    let a_trans = Transform::identity().rotated_cw().rotated_cw();
    let d_trans = Transform::identity().flipped_vert();
    grid.add_ice_block(6, 0, Symbol::CyanQ(q_trans));
    grid.add_ice_block(7, 0, Symbol::CyanA(a_trans));
    grid.add_ice_block(8, 0, Symbol::CyanU(u_trans));
    grid.add_ice_block(9, 0, Symbol::CyanQ(d_trans));
    grid
}

/// The pipe grid of the third stage as it is laid out at first.
pub open spec fn spec_elinsa_grid() -> PlaneModel {
    PlaneModel {
        rect: Rect { left: 0, top: 0, width: 12, height: 6 },
        objects: Map::<Point, PlaneObj>::empty().insert(
            Point { x: 0, y: 0 },
            PlaneObj::Wall,
        ).insert(
            Point { x: 9, y: 1 },
            PlaneObj::BlueNode,
        ).insert(
            Point { x: 10, y: 1 },
            PlaneObj::Wall,
        ).insert(
            Point { x: 2, y: 2 },
            PlaneObj::PurpleNode,
        ).insert(
            Point { x: 9, y: 2 },
            PlaneObj::Cross,
        ).insert(
            Point { x: 5, y: 3 },
            PlaneObj::RedNode,
        ).insert(
            Point { x: 9, y: 3 },
            PlaneObj::Cross,
        ).insert(
            Point { x: 11, y: 3 },
            PlaneObj::BlueNode,
        ).insert(
            Point { x: 3, y: 4 },
            PlaneObj::Wall,
        ).insert(
            Point { x: 1, y: 5 },
            PlaneObj::RedNode,
        ),
        pipes: Seq::empty(),
    }
}

/// Returns the pipe grid of the third stage as it is laid out at first.
pub fn elinsa_initial_grid() -> (grid: PlaneGrid)
    ensures
        grid.wf(),
        grid@ == spec_elinsa_grid(),
        grid@.tidy(),
{
    let mut grid = PlaneGrid::new(Rect::new(0, 0, 12, 6));
    grid.place_object(0, 0, PlaneObj::Wall);
    grid.place_object(9, 1, PlaneObj::BlueNode);
    grid.place_object(10, 1, PlaneObj::Wall);
    grid.place_object(2, 2, PlaneObj::PurpleNode);
    grid.place_object(9, 2, PlaneObj::Cross);
    grid.place_object(5, 3, PlaneObj::RedNode);
    grid.place_object(9, 3, PlaneObj::Cross);
    grid.place_object(11, 3, PlaneObj::BlueNode);
    grid.place_object(3, 4, PlaneObj::Wall);
    grid.place_object(1, 5, PlaneObj::RedNode);
    grid
}

/// The device grid of the fourth stage as it is laid out at first.
pub open spec fn spec_ugrent_grid() -> DeviceModel {
    DeviceModel::empty(7, 5)
        .with(0, 0, Device::Emitter(PrimaryColor::Red), Direction::South)
        .with(3, 0, Device::Detector(PrimaryColor::Red), Direction::East)
        .with(6, 2, Device::Detector(PrimaryColor::Green), Direction::West)
        .with(3, 3, Device::Wall, Direction::East)
        .with(0, 4, Device::Emitter(PrimaryColor::Green), Direction::North)
        .with(3, 4, Device::Detector(PrimaryColor::Blue), Direction::East)
        .with(2, 0, Device::Mirror, Direction::East)
        .with(2, 1, Device::Mirror, Direction::South)
        .with(2, 2, Device::Mirror, Direction::East)
        .with(2, 3, Device::Mirror, Direction::South)
        .with(2, 4, Device::Mirror, Direction::East)
        .with(3, 1, Device::Mixer, Direction::East)
        .with(3, 2, Device::Mixer, Direction::East)
        .with(4, 1, Device::Splitter, Direction::East)
        .with(4, 2, Device::Splitter, Direction::East)
        .with(4, 3, Device::Splitter, Direction::East)
        .with(5, 0, Device::Mirror, Direction::South)
        .with(5, 1, Device::Mirror, Direction::East)
        .with(5, 2, Device::Mirror, Direction::South)
        .with(5, 3, Device::Mirror, Direction::East)
        .with(5, 4, Device::Mirror, Direction::South)
}

/// Returns the device grid of the fourth stage as it is laid out at first.
pub fn ugrent_initial_grid() -> (grid: DeviceGrid)
    ensures
        grid@.wf(),
        grid@ == spec_ugrent_grid(),
{
    let mut grid = DeviceGrid::new(7, 5);
    grid.set(0, 0, Device::Emitter(PrimaryColor::Red), Direction::South);
    grid.set(3, 0, Device::Detector(PrimaryColor::Red), Direction::East);
    grid.set(6, 2, Device::Detector(PrimaryColor::Green), Direction::West);
    grid.set(3, 3, Device::Wall, Direction::East);
    grid.set(0, 4, Device::Emitter(PrimaryColor::Green), Direction::North);
    grid.set(3, 4, Device::Detector(PrimaryColor::Blue), Direction::East);
    grid.set(2, 0, Device::Mirror, Direction::East);
    grid.set(2, 1, Device::Mirror, Direction::South);
    grid.set(2, 2, Device::Mirror, Direction::East);
    grid.set(2, 3, Device::Mirror, Direction::South);
    grid.set(2, 4, Device::Mirror, Direction::East);
    grid.set(3, 1, Device::Mixer, Direction::East);
    grid.set(3, 2, Device::Mixer, Direction::East);
    grid.set(4, 1, Device::Splitter, Direction::East);
    grid.set(4, 2, Device::Splitter, Direction::East);
    grid.set(4, 3, Device::Splitter, Direction::East);
    grid.set(5, 0, Device::Mirror, Direction::South);
    grid.set(5, 1, Device::Mirror, Direction::East);
    grid.set(5, 2, Device::Mirror, Direction::South);
    grid.set(5, 3, Device::Mirror, Direction::East);
    grid.set(5, 4, Device::Mirror, Direction::South);
    grid
}

/// The mathematical value of the state of the last puzzle.
pub struct SyzygyModel {
    pub access: Access,
    pub stage: SyzygyStage,
    pub yttris: Seq<ColumnModel>,
    pub argony: GridModel,
    pub elinsa: PlaneModel,
    pub ugrent: DeviceModel,
    pub relyng: LightsModel,
}

/// The integers that a saved list holds, each brought into the range of
/// `i32`; 0 for what is no integer.
pub open spec fn integers_read(saved: Seq<Saved>) -> Seq<i32> {
    Seq::new(saved.len(), |j: int| spec_to_i32(saved[j]) as i32)
}

/// The lights that a saved table stands for: the cells under
/// "relyng_lights" that lie on the grid are switched, and the shape under
/// "relyng_next" is the next.
pub open spec fn lights_restored(t: Map<Seq<char>, Saved>) -> LightsModel {
    let cells = integers_read(spec_to_array(entry(t, "relyng_lights"@)));
    LightsModel {
        switched: Set::new(|i: int| 0 <= i < 20 && cells.contains(i as i32)),
        next: shape_read(entry(t, "relyng_next"@)),
    }
}

/// The state that a saved table stands for. What the table does not hold,
/// or holds in a form that does not fit, is as at the start.
pub open spec fn syzygy_restored(t: Map<Seq<char>, Saved>) -> SyzygyModel {
    SyzygyModel {
        access: Access::from_table(t),
        stage: SyzygyStage::from_model(entry(t, "stage"@)),
        yttris: columns_restored(spec_yttris_columns(), spec_to_array(entry(t, "yttris"@))),
        argony: spec_argony_grid().restored(spec_to_table(entry(t, "argony"@))),
        elinsa: spec_elinsa_grid().retraced(spec_to_array(entry(t, "elinsa"@))),
        ugrent: spec_ugrent_grid().restored(spec_to_array(entry(t, "ugrent"@))),
        relyng: lights_restored(t),
    }
}

/// The list that saves the switched lights: their cells in rising order.
pub open spec fn lights_saved(m: LightsModel) -> Saved {
    let cells = rising(m.switched, 20);
    Saved::Array(Seq::new(cells.len(), |j: int| Saved::Integer(cells[j] as int)))
}

/// The table that saves the state, `argony` being the value that saves the
/// ice grid: the progress under "access" and, unless the puzzle is solved,
/// the stage under "stage" and what the player has done in that stage.
pub open spec fn syzygy_saved(m: SyzygyModel, argony: Saved) -> Saved {
    let base = no_entries().insert("access"@, Saved::Text(m.access.spec_key()));
    if m.access.spec_is_solved() {
        Saved::Table(base)
    } else {
        let staged = base.insert("stage"@, Saved::Text(m.stage.spec_key()));
        match m.stage {
            SyzygyStage::Yttris => Saved::Table(staged.insert("yttris"@, columns_saved(m.yttris))),
            SyzygyStage::Argony => if m.argony.is_modified {
                Saved::Table(staged.insert("argony"@, argony))
            } else {
                Saved::Table(staged)
            },
            SyzygyStage::Elinsa => Saved::Table(staged.insert("elinsa"@, pipes_saved(m.elinsa.pipes))),
            SyzygyStage::Ugrent => if m.ugrent.is_modified {
                Saved::Table(staged.insert("ugrent"@, grid_saved(m.ugrent)))
            } else {
                Saved::Table(staged)
            },
            SyzygyStage::Relyng => Saved::Table(
                staged.insert("relyng_lights"@, lights_saved(m.relyng)).insert(
                    "relyng_next"@,
                    Saved::Text(shape_saved(m.relyng.next)),
                ),
            ),
            _ => Saved::Table(staged),
        }
    }
}

impl SyzygyModel {
    /// True if the stage that the player is in can be set back: something
    /// in it has left the state in which it starts.
    pub open spec fn can_reset(self) -> bool {
        match self.stage {
            SyzygyStage::Yttris => !columns_at_start(self.yttris),
            SyzygyStage::Argony => self.argony.is_modified,
            SyzygyStage::Elinsa => self.elinsa.pipes.len() > 0,
            SyzygyStage::Ugrent => self.ugrent.is_modified,
            SyzygyStage::Relyng => self.relyng.switched != Set::<int>::empty(),
            _ => false,
        }
    }

    /// The state after the stage that the player is in was set back.
    pub open spec fn reset(self) -> SyzygyModel {
        match self.stage {
            SyzygyStage::Yttris => SyzygyModel {
                yttris: with_positions(self.yttris, |c: int| 0),
                ..self
            },
            SyzygyStage::Argony => SyzygyModel { argony: spec_argony_grid(), ..self },
            SyzygyStage::Elinsa => SyzygyModel {
                elinsa: PlaneModel { pipes: Seq::empty(), ..self.elinsa },
                ..self
            },
            SyzygyStage::Ugrent => SyzygyModel { ugrent: spec_ugrent_grid(), ..self },
            SyzygyStage::Relyng => SyzygyModel {
                relyng: LightsModel { switched: Set::empty(), next: '+' },
                ..self
            },
            _ => self,
        }
    }

    /// The state after the puzzle was set back to be played again: the
    /// first stage, with every stage as at the start.
    pub open spec fn replayed(self) -> SyzygyModel {
        SyzygyModel {
            access: Access::BeginReplay,
            stage: SyzygyStage::Yttris,
            yttris: with_positions(self.yttris, |c: int| 0),
            argony: spec_argony_grid(),
            elinsa: PlaneModel { pipes: Seq::empty(), ..self.elinsa },
            ugrent: spec_ugrent_grid(),
            relyng: LightsModel { switched: Set::empty(), next: '+' },
        }
    }
}

/// The state of the last puzzle: the player's progress, the stage, and the
/// engine of each stage.
pub struct SyzygyState {
    access: Access,
    stage: SyzygyStage,
    yttris: Columns,
    argony: ObjectGrid,
    elinsa: PlaneGrid,
    ugrent: DeviceGrid,
    relyng: Lights,
}

impl View for SyzygyState {
    type V = SyzygyModel;

    closed spec fn view(&self) -> SyzygyModel {
        SyzygyModel {
            access: self.access,
            stage: self.stage,
            yttris: self.yttris@,
            argony: self.argony@,
            elinsa: self.elinsa@,
            ugrent: self.ugrent@,
            relyng: self.relyng@,
        }
    }
}

impl SyzygyState {
    /// The invariant of the type: that of each engine.
    pub closed spec fn wf(&self) -> bool {
        &&& self.yttris.wf()
        &&& self.argony.wf()
        &&& self.elinsa.wf()
        &&& self.ugrent@.wf()
        &&& self.relyng.wf()
    }

    /// What the invariant says of the value: the value of each stage is
    /// valid.
    pub proof fn lemma_wf(&self)
        requires
            self.wf(),
        ensures
            columns_ok(self@.yttris),
            self@.argony.wf(),
            pipes_ok(self@.elinsa.pipes),
            self@.ugrent.wf(),
            self@.relyng.wf(),
    {
        self.yttris.lemma_wf();
        self.argony.lemma_wf();
        self.elinsa.lemma_wf();
        self.relyng.lemma_wf();
    }

    /// The value that saves the ice grid.
    pub closed spec fn argony_saved(&self) -> Saved {
        self.argony.spec_to_toml()
    }

    /// The value that saves the ice grid holds its blocks and its
    /// push-pops, each once.
    pub proof fn lemma_argony_saved(&self)
        requires
            self.wf(),
        ensures
            exists|blocks: Seq<(Point, Symbol)>, objects: Seq<(Point, Object)>|
                #![trigger GridModel::saved(blocks, objects)]
                {
                    &&& self.argony_saved() == GridModel::saved(blocks, objects)
                    &&& crate::cells::distinct_cells(blocks)
                    &&& crate::cells::distinct_cells(objects)
                    &&& crate::cells::pairs_to_map(blocks) == self@.argony.ice_blocks
                    &&& crate::cells::pairs_to_map(objects) == self@.argony.objects
                },
    {
        self.argony.lemma_to_toml();
    }

    /// Returns the state that `table` stands for. What the table does not
    /// hold, or holds in a form that does not fit, is as at the start.
    pub fn from_toml(table: toml::value::Table) -> (s: SyzygyState)
        ensures
            s.wf(),
            s@ == syzygy_restored(table_model(table)),
    {
        let mut table = table;
        let ghost t = table_model(table);
        let access = Access::read_from(&table);
        let stage = SyzygyStage::from_toml(table_get(&table, "stage"));
        let yttris = match array_at(&table, "yttris") {
            Some(saved) => Columns::from_toml(yttris_columns(), saved),
            None => {
                let none: Vec<toml::Value> = Vec::new();
                proof {
                    assert(values_model(none@) =~= Seq::<Saved>::empty());
                }
                Columns::from_toml(yttris_columns(), &none)
            },
        };
        let ugrent = match array_at(&table, "ugrent") {
            Some(saved) => DeviceGrid::from_toml(saved, &ugrent_initial_grid()),
            None => {
                let none: Vec<toml::Value> = Vec::new();
                proof {
                    assert(values_model(none@) =~= Seq::<Saved>::empty());
                }
                DeviceGrid::from_toml(&none, &ugrent_initial_grid())
            },
        };
        let relyng_next = shape_from_toml(table_get(&table, "relyng_next"));
        let mut cells: Vec<i32> = Vec::new();
        let ghost saved_cells = spec_to_array(entry(t, "relyng_lights"@));
        match array_at(&table, "relyng_lights") {
            Some(list) => {
                let mut i: usize = 0;
                while i < list.len()
                    invariant
                        i <= list@.len(),
                        values_model(list@) == saved_cells,
                        cells@ == integers_read(saved_cells).subrange(0, i as int),
                    decreases list@.len() - i,
                {
                    let cell = to_i32(&list[i]);
                    assert(saved_cells[i as int] == value_model(list@[i as int]));
                    cells.push(cell);
                    proof {
                        assert(cells@ =~= integers_read(saved_cells).subrange(0, i + 1));
                    }
                    i += 1;
                }
                proof {
                    assert(cells@ =~= integers_read(saved_cells));
                }
            },
            None => {
                proof {
                    assert(cells@ =~= integers_read(saved_cells));
                }
            },
        }
        let relyng = Lights::from_parts(&cells, relyng_next);
        proof {
            reveal_strlit("argony");
            reveal_strlit("elinsa");
            assert("argony"@[0] == 'a' && "elinsa"@[0] == 'e');
            assert("argony"@ != "elinsa"@);
        }
        let argony = ObjectGrid::from_toml(pop_table(&mut table, "argony"), &argony_initial_grid());
        let mut elinsa = elinsa_initial_grid();
        elinsa.set_pipes_from_toml(pop_array(&mut table, "elinsa"));
        let s = SyzygyState { access, stage, yttris, argony, elinsa, ugrent, relyng };
        proof {
            assert(spec_elinsa_grid() == (PlaneModel { pipes: Seq::empty(), ..spec_elinsa_grid() }));
            assert(s@.relyng == lights_restored(t));
        }
        s
    }

    /// Marks the puzzle solved.
    pub fn solve(&mut self)
        ensures
            final(self)@ == (SyzygyModel { access: Access::Solved, ..old(self)@ }),
            final(self).wf() == old(self).wf(),
    {
        self.access = Access::Solved;
    }

    /// Returns the stage that the player is in.
    pub fn stage(&self) -> (r: SyzygyStage)
        ensures
            r == self@.stage,
    {
        self.stage
    }

    /// Moves on to the next stage if the stage that the player is in is
    /// done, and says whether it did. Only the third stage can be done: it is
    /// once every pair of nodes that belongs together is joined.
    pub fn advance_stage_if_done(&mut self) -> (r: bool)
        requires
            old(self).wf(),
        ensures
            final(self).wf(),
            r == (old(self)@.stage == SyzygyStage::Elinsa && old(self)@.elinsa.all_connected()),
            final(self)@ == (SyzygyModel {
                stage: if r {
                    SyzygyStage::Ugrent
                } else {
                    old(self)@.stage
                },
                ..old(self)@
            }),
    {
        match self.stage {
            SyzygyStage::Elinsa => {
                if self.elinsa.all_nodes_are_connected() {
                    self.stage = SyzygyStage::Ugrent;
                    return true;
                }
            },
            _ => {},
        }
        false
    }

    /// Returns the columns of the first stage.
    pub fn yttris_columns(&self) -> (r: &Columns)
        ensures
            r@ == self@.yttris,
            self.wf() ==> r.wf(),
    {
        &self.yttris
    }

    /// Returns the columns of the first stage, to be changed in place.
    pub fn yttris_columns_mut(&mut self) -> (r: &mut Columns)
        ensures
            r@ == old(self)@.yttris,
            old(self).wf() ==> r.wf(),
            final(self)@ == (SyzygyModel { yttris: final(r)@, ..old(self)@ }),
            old(self).wf() && final(r).wf() ==> final(self).wf(),
    {
        &mut self.yttris
    }

    /// Returns the ice grid of the second stage.
    pub fn argony_grid(&self) -> (r: &ObjectGrid)
        ensures
            r@ == self@.argony,
            self.wf() ==> r.wf(),
    {
        &self.argony
    }

    /// Returns the ice grid of the second stage, to be changed in place.
    pub fn argony_grid_mut(&mut self) -> (r: &mut ObjectGrid)
        ensures
            r@ == old(self)@.argony,
            old(self).wf() ==> r.wf(),
            final(self)@ == (SyzygyModel { argony: final(r)@, ..old(self)@ }),
            old(self).wf() && final(r).wf() ==> final(self).wf(),
    {
        &mut self.argony
    }

    /// Returns the pipe grid of the third stage.
    pub fn elinsa_grid(&self) -> (r: &PlaneGrid)
        ensures
            r@ == self@.elinsa,
            self.wf() ==> r.wf(),
    {
        &self.elinsa
    }

    /// Returns the pipe grid of the third stage, to be changed in place.
    pub fn elinsa_grid_mut(&mut self) -> (r: &mut PlaneGrid)
        ensures
            r@ == old(self)@.elinsa,
            old(self).wf() ==> r.wf(),
            final(self)@ == (SyzygyModel { elinsa: final(r)@, ..old(self)@ }),
            old(self).wf() && final(r).wf() ==> final(self).wf(),
    {
        &mut self.elinsa
    }

    /// Returns the device grid of the fourth stage.
    pub fn ugrent_grid(&self) -> (r: &DeviceGrid)
        ensures
            r@ == self@.ugrent,
            self.wf() ==> r@.wf(),
    {
        &self.ugrent
    }

    /// Returns the device grid of the fourth stage, to be changed in place.
    pub fn ugrent_grid_mut(&mut self) -> (r: &mut DeviceGrid)
        ensures
            r@ == old(self)@.ugrent,
            final(self)@ == (SyzygyModel { ugrent: final(r)@, ..old(self)@ }),
            old(self).wf() && final(r)@.wf() ==> final(self).wf(),
    {
        &mut self.ugrent
    }

    /// Returns true if the light in the given column and row of the fifth
    /// stage is lit: its cell is not among the switched cells.
    pub fn relyng_is_lit(&self, cell: (i32, i32)) -> (r: bool)
        requires
            self.wf(),
            0 <= cell.0 < 5,
            0 <= cell.1 < 4,
        ensures
            r == !self@.relyng.switched.contains(cell.1 * 5 + cell.0),
    {
        self.relyng.is_lit(cell.0, cell.1)
    }

    /// Returns true if the fifth stage is done: every cell is switched.
    pub fn relyng_is_done(&self) -> (r: bool)
        requires
            self.wf(),
        ensures
            r == (forall|i: int| 0 <= i < 20 ==> self@.relyng.switched.contains(i)),
    {
        let r = self.relyng.is_done();
        proof {
            assert(self@.relyng.switched == self.relyng@.switched);
            if r {
                assert forall|i: int| 0 <= i < 20 implies self@.relyng.switched.contains(i) by {
                    assert(self.relyng@.switched.contains(i));
                }
            } else {
                let i = choose|i: int| 0 <= i < 20 && !self.relyng@.switched.contains(i);
                assert(!self@.relyng.switched.contains(i));
            }
        }
        r
    }

    /// Returns the shape that the next toggle of the fifth stage applies.
    pub fn relyng_next_shape(&self) -> (r: char)
        ensures
            r == self@.relyng.next,
    {
        self.relyng.next_shape()
    }

    /// Applies the next shape of the fifth stage with its centre on the
    /// given column and row, and moves on to the shape after it.
    pub fn relyng_toggle(&mut self, cell: (i32, i32))
        requires
            old(self).wf(),
        ensures
            final(self).wf(),
            final(self)@ == (SyzygyModel {
                relyng: old(self)@.relyng.toggle(cell.0 as int, cell.1 as int),
                ..old(self)@
            }),
    {
        self.relyng.toggle(cell.0, cell.1);
    }

    /// Takes back a toggle of the fifth stage on the given column and row.
    pub fn relyng_untoggle(&mut self, cell: (i32, i32))
        requires
            old(self).wf(),
        ensures
            final(self).wf(),
            final(self)@ == (SyzygyModel {
                relyng: old(self)@.relyng.untoggle(cell.0 as int, cell.1 as int),
                ..old(self)@
            }),
    {
        self.relyng.untoggle(cell.0, cell.1);
    }

    /// Returns the place of the puzzle in the game.
    pub fn location(&self) -> (r: Location)
        ensures
            r == Location::SystemSyzygy,
    {
        Location::SystemSyzygy
    }

    /// Returns the player's progress.
    pub fn access(&self) -> (r: Access)
        ensures
            r == self@.access,
    {
        self.access
    }

    /// Returns the player's progress, to be changed in place.
    pub fn access_mut(&mut self) -> (r: &mut Access)
        ensures
            *r == old(self)@.access,
            final(self)@ == (SyzygyModel { access: *final(r), ..old(self)@ }),
            final(self).wf() == old(self).wf(),
    {
        &mut self.access
    }

    /// Returns true if the puzzle is solved.
    pub fn is_solved(&self) -> (r: bool)
        ensures
            r == self@.access.spec_is_solved(),
    {
        self.access.is_solved()
    }

    /// Returns true if the stage that the player is in can be set back.
    pub fn can_reset(&self) -> (r: bool)
        requires
            self.wf(),
        ensures
            r == self@.can_reset(),
    {
        match self.stage {
            SyzygyStage::Yttris => self.yttris.can_reset(),
            SyzygyStage::Argony => self.argony.is_modified(),
            SyzygyStage::Elinsa => self.elinsa.pipes().len() > 0,
            SyzygyStage::Ugrent => self.ugrent.is_modified(),
            SyzygyStage::Relyng => !self.relyng.is_clear(),
            _ => false,
        }
    }

    /// Sets back the stage that the player is in.
    pub fn reset(&mut self)
        requires
            old(self).wf(),
        ensures
            final(self).wf(),
            final(self)@ == old(self)@.reset(),
    {
        match self.stage {
            SyzygyStage::Yttris => {
                self.yttris.reset();
            },
            SyzygyStage::Argony => {
                self.argony = argony_initial_grid();
            },
            SyzygyStage::Elinsa => {
                self.elinsa.remove_all_pipes();
            },
            SyzygyStage::Ugrent => {
                self.ugrent = ugrent_initial_grid();
            },
            SyzygyStage::Relyng => {
                self.relyng.reset();
            },
            _ => {},
        }
    }

    /// Sets the puzzle back to its first stage to be played again.
    pub fn replay(&mut self)
        requires
            old(self).wf(),
        ensures
            final(self).wf(),
            final(self)@ == old(self)@.replayed(),
    {
        self.stage = SyzygyStage::first();
        self.yttris.reset();
        self.argony = argony_initial_grid();
        self.elinsa.remove_all_pipes();
        self.ugrent = ugrent_initial_grid();
        self.relyng.reset();
        self.access = Access::BeginReplay;
    }

    /// Returns the table that saves the state: the progress under "access"
    /// and, unless the puzzle is solved, the stage under "stage" and what
    /// the player has done in that stage.
    #[verifier::loop_isolation(false)]
    pub fn to_toml(&self) -> (v: toml::Value)
        requires
            self.wf(),
        ensures
            value_model(v) == syzygy_saved(self@, self.argony_saved()),
    {
        let mut table = new_table();
        table_insert(&mut table, "access", self.access.to_toml());
        if !self.access.is_solved() {
            table_insert(&mut table, "stage", self.stage.to_toml());
            match self.stage {
                SyzygyStage::Yttris => {
                    table_insert(&mut table, "yttris", self.yttris.to_toml());
                },
                SyzygyStage::Argony => {
                    if self.argony.is_modified() {
                        table_insert(&mut table, "argony", self.argony.to_toml());
                    }
                },
                SyzygyStage::Elinsa => {
                    table_insert(&mut table, "elinsa", self.elinsa.pipes_to_toml());
                },
                SyzygyStage::Ugrent => {
                    if self.ugrent.is_modified() {
                        table_insert(&mut table, "ugrent", self.ugrent.to_toml());
                    }
                },
                SyzygyStage::Relyng => {
                    let cells = self.relyng.switched();
                    let mut lights: Vec<toml::Value> = Vec::new();
                    let mut i: usize = 0;
                    while i < cells.len()
                        invariant
                            i <= cells@.len(),
                            values_model(lights@) == Seq::new(
                                i as nat,
                                |j: int| Saved::Integer(cells@[j] as int),
                            ),
                        decreases cells@.len() - i,
                    {
                        let ghost before = lights@;
                        let saved = integer_value(cells[i] as i64);
                        lights.push(saved);
                        proof {
                            lemma_values_push(before, saved);
                            assert(values_model(lights@) =~= Seq::new(
                                (i + 1) as nat,
                                |j: int| Saved::Integer(cells@[j] as int),
                            ));
                        }
                        i += 1;
                    }
                    table_insert(&mut table, "relyng_lights", array_value(lights));
                    table_insert(&mut table, "relyng_next", string_value(self.relyng.next_word()));
                },
                _ => {},
            }
        }
        table_value(table)
    }
}

} // verus!
