use crate::cells::PointMap;
use crate::direction::Direction;
use crate::ice::symbol::Symbol;
use crate::ice::transform::Transform;
use crate::point::Point;
use crate::saved::{
    array_at, array_value, entry, i32_at, integer_value, new_table, no_entries, spec_i32_at,
    spec_to_array, spec_to_table, lemma_values_push, table_get, table_insert, table_model, table_value, value_as_table,
    value_model, values_model, Saved,
};
use vstd::prelude::*;

verus! {

/// A fixed object on a cell of an ice grid.
#[derive(Clone, Copy, Debug, PartialEq, Eq, Structural)]
pub enum Object {
    /// A hole: no block enters.
    Gap,
    /// A wall: no block enters.
    Wall,
    /// A push-pop: a gate that a block pushes ahead when it comes from the side that the
    /// direction points to, and that stops a block from any other side.
    PushPop(Direction),
    /// Turns a block that passes by a quarter turn clockwise.
    Rotator,
    /// Mirrors a block that passes: up and down if the flag is set, left and
    /// right if not.
    Reflector(bool),
    /// The place where a block with this symbol belongs.
    Goal(Symbol),
}

impl Object {
    /// True for the two objects that no block ever stands on.
    pub open spec fn blocks_cell(self) -> bool {
        self == Object::Gap || self == Object::Wall
    }

    /// True for a gate.
    pub open spec fn is_gate(self) -> bool {
        self is PushPop
    }

    /// True unless the object is a goal whose symbol is invalid.
    pub open spec fn wf(self) -> bool {
        match self {
            Object::Goal(symbol) => symbol.wf(),
            _ => true,
        }
    }
}

/// The mathematical value of a record of one slide.
pub struct SlideRecord {
    pub from: Point,
    pub direction: Direction,
    pub to: Point,
    pub pushed: Option<Point>,
    pub transform: Transform,
}

/// The record of one slide of an ice block: where it started, which way it
/// went, where it stopped, where the push-pop that it pushed last came to rest,
/// and how the block was turned and mirrored on its way.
#[derive(Clone, Copy, Debug)]
pub struct BlockSlide {
    from: Point,
    direction: Direction,
    to: Point,
    pushed: Option<Point>,
    transform: Transform,
}

impl View for BlockSlide {
    type V = SlideRecord;

    closed spec fn view(&self) -> SlideRecord {
        SlideRecord {
            from: self.from,
            direction: self.direction,
            to: self.to,
            pushed: self.pushed,
            transform: self.transform,
        }
    }
}

impl BlockSlide {
    /// The invariant of the type: the transform is valid, and neither end
    /// of the slide has a negative coordinate.
    pub open spec fn wf(&self) -> bool {
        &&& self@.transform.wf()
        &&& self@.from.x >= 0 && self@.from.y >= 0
        &&& self@.to.x >= 0 && self@.to.y >= 0
    }

    /// Returns the direction of the slide.
    pub fn direction(&self) -> (r: Direction)
        ensures
            r == self@.direction,
    {
        self.direction
    }

    /// Returns the cell on which the block came to rest.
    pub fn to_coords(&self) -> (r: Point)
        ensures
            r == self@.to,
    {
        self.to
    }

    /// Returns the number of cells between the start and the end of the
    /// slide, counted along the row if both lie in one row and along the
    /// column otherwise.
    pub fn distance(&self) -> (r: i32)
        requires
            self.wf(),
        ensures
            r == spec_distance(self@.from, self@.to),
    {
        let d: i32 = if self.to.y == self.from.y {
            self.to.x - self.from.x
        } else {
            self.to.y - self.from.y
        };
        if d < 0 {
            -d
        } else {
            d
        }
    }

    /// Returns the cell on which the push-pop that the block pushed last came to
    /// rest, if it pushed any.
    pub fn pushed(&self) -> (r: Option<Point>)
        ensures
            r == self@.pushed,
    {
        self.pushed
    }

    /// Returns how the block was turned and mirrored on its way.
    pub fn transform(&self) -> (r: Transform)
        ensures
            r == self@.transform,
    {
        self.transform
    }
}

/// The number of cells from `from` to `to` along the row, if both lie in one
/// row, and along the column otherwise.
pub open spec fn spec_distance(from: Point, to: Point) -> int {
    let d = if to.y == from.y { to.x - from.x } else { to.y - from.y };
    if d < 0 { -d } else { d }
}

/// True if the cell lies on a grid of `cols` columns and `rows` rows.
pub open spec fn in_bounds(cols: int, rows: int, p: Point) -> bool {
    0 <= p.x < cols && 0 <= p.y < rows
}

/// How many steps in `dir` the range of coordinates still has beyond `p`.
pub open spec fn room(p: Point, dir: Direction) -> int {
    match dir {
        Direction::East => i32::MAX - p.x,
        Direction::West => p.x - i32::MIN,
        Direction::South => i32::MAX - p.y,
        Direction::North => p.y - i32::MIN,
    }
}

/// The first cell without an object at or beyond `p` in direction `dir`;
/// `None` where the range of coordinates ends before one is found.
pub open spec fn gate_target(objects: Map<Point, Object>, p: Point, dir: Direction) -> Option<Point>
    decreases room(p, dir),
{
    if !objects.contains_key(p) {
        Some(p)
    } else if !p.can_step(dir) {
        None
    } else {
        gate_target(objects, p.step(dir), dir)
    }
}

/// Where the push-pop on `gate` comes to rest when a block pushes it in
/// direction `dir` on a grid of `cols` columns and `rows` rows: the first
/// cell without an object beyond it. There is no such place, and the
/// push-pop does not yield, where that cell lies off the grid or an ice block
/// stands on it.
pub open spec fn gate_move(
    cols: int,
    rows: int,
    objects: Map<Point, Object>,
    ice: Map<Point, Symbol>,
    gate: Point,
    dir: Direction,
) -> Option<Point> {
    if !gate.can_step(dir) {
        None
    } else {
        match gate_target(objects, gate.step(dir), dir) {
            Some(t) => if !in_bounds(cols, rows, t) || ice.contains_key(t) {
                None
            } else {
                Some(t)
            },
            None => None,
        }
    }
}

/// A block under way: where it is, what the objects have become, how it has
/// been turned, where the push-pop that it pushed last came to rest, and how
/// many gates it has pushed.
pub struct SlideState {
    pub pos: Point,
    pub objects: Map<Point, Object>,
    pub transform: Transform,
    pub pushed: Option<Point>,
    pub pushes: nat,
}

/// The state after the block has moved on by one cell in direction `dir`,
/// or `None` if it cannot: the next cell lies off the grid, holds another
/// block, a wall, a gap, or a gate that does not yield. `ice` holds the
/// other blocks.
pub open spec fn slide_step(
    cols: int,
    rows: int,
    ice: Map<Point, Symbol>,
    st: SlideState,
    dir: Direction,
) -> Option<SlideState> {
    let next = st.pos.step(dir);
    if !st.pos.can_step(dir) || !in_bounds(cols, rows, next) || ice.contains_key(next) {
        None
    } else if !st.objects.contains_key(next) {
        Some(SlideState { pos: next, ..st })
    } else {
        match st.objects[next] {
            Object::Gap | Object::Wall => None,
            Object::PushPop(gate_dir) => {
                if gate_dir != dir.spec_opposite() {
                    None
                } else {
                    match gate_move(cols, rows, st.objects, ice, next, dir) {
                        Some(t) => Some(
                            SlideState {
                                pos: next,
                                objects: st.objects.remove(next).insert(t, Object::PushPop(dir)),
                                transform: st.transform,
                                pushed: Some(t),
                                pushes: st.pushes + 1,
                            },
                        ),
                        None => None,
                    }
                }
            },
            Object::Rotator => Some(
                SlideState { pos: next, transform: st.transform.spec_rotated_cw(), ..st },
            ),
            Object::Reflector(false) => Some(
                SlideState { pos: next, transform: st.transform.spec_flipped_horz(), ..st },
            ),
            Object::Reflector(true) => Some(
                SlideState { pos: next, transform: st.transform.spec_flipped_vert(), ..st },
            ),
            Object::Goal(_) => Some(SlideState { pos: next, ..st }),
        }
    }
}

/// How many cells of the grid lie at or beyond `p` in direction `dir`.
pub open spec fn span(cols: int, rows: int, p: Point, dir: Direction) -> int {
    match dir {
        Direction::East => cols - p.x,
        Direction::West => p.x + 1,
        Direction::South => rows - p.y,
        Direction::North => p.y + 1,
    }
}

/// The state in which the block comes to rest: it moves on cell by cell
/// until it cannot.
pub open spec fn slide_run(
    cols: int,
    rows: int,
    ice: Map<Point, Symbol>,
    st: SlideState,
    dir: Direction,
) -> SlideState
    decreases span(cols, rows, st.pos, dir),
{
    match slide_step(cols, rows, ice, st, dir) {
        Some(next) => slide_run(cols, rows, ice, next, dir),
        None => st,
    }
}

/// The objects after the push-pop on `pp`, if there is one, went back against
/// the direction it points to, to the first cell without an object, on a
/// grid of `cols` columns and `rows` rows; unchanged if that cell lies off
/// the grid.
pub open spec fn gate_returned(
    cols: int,
    rows: int,
    objects: Map<Point, Object>,
    pp: Point,
) -> Map<Point, Object> {
    if objects.contains_key(pp) {
        match objects[pp] {
            Object::PushPop(gate_dir) => {
                let back = gate_dir.spec_opposite();
                if pp.can_step(back) {
                    match gate_target(objects, pp.step(back), back) {
                        Some(t) => if in_bounds(cols, rows, t) {
                            objects.remove(pp).insert(t, Object::PushPop(back))
                        } else {
                            objects
                        },
                        None => objects,
                    }
                } else {
                    objects
                }
            },
            _ => objects,
        }
    } else {
        objects
    }
}

/// The mathematical value of an ice grid.
pub struct GridModel {
    pub num_cols: int,
    pub num_rows: int,
    pub objects: Map<Point, Object>,
    pub ice_blocks: Map<Point, Symbol>,
    pub is_modified: bool,
}

impl GridModel {
    /// True if the cell lies on the grid.
    pub open spec fn holds(self, p: Point) -> bool {
        in_bounds(self.num_cols, self.num_rows, p)
    }

    /// True if a wall or a gap is on the cell.
    pub open spec fn blocked_at(self, p: Point) -> bool {
        self.objects.contains_key(p) && self.objects[p].blocks_cell()
    }

    /// The invariant of a grid: its size is not negative; every ice block
    /// stands on the grid, on a cell without wall or gap; every object is on
    /// the grid; and every symbol is valid.
    pub open spec fn wf(self) -> bool {
        &&& 0 <= self.num_cols <= i32::MAX
        &&& 0 <= self.num_rows <= i32::MAX
        &&& forall|p: Point| #[trigger]
            self.ice_blocks.contains_key(p) ==> self.holds(p) && !self.blocked_at(p)
                && self.ice_blocks[p].wf()
        &&& forall|p: Point| #[trigger]
            self.objects.contains_key(p) ==> self.objects[p].wf() && self.holds(p)
    }

    /// The state in which the block on `coords` starts a slide.
    pub open spec fn slide_start(self, coords: Point) -> SlideState {
        SlideState {
            pos: coords,
            objects: self.objects,
            transform: Transform::spec_identity(),
            pushed: None,
            pushes: 0,
        }
    }

    /// The state in which the block on `coords` comes to rest when it is
    /// sent off in direction `dir`.
    pub open spec fn slide_end(self, coords: Point, dir: Direction) -> SlideState {
        slide_run(
            self.num_cols,
            self.num_rows,
            self.ice_blocks.remove(coords),
            self.slide_start(coords),
            dir,
        )
    }

    /// True if sending the block on `coords` off in direction `dir` moves
    /// it: there is a block, and it comes to rest on another cell.
    pub open spec fn slides(self, coords: Point, dir: Direction) -> bool {
        self.ice_blocks.contains_key(coords) && self.slide_end(coords, dir).pos != coords
    }

    /// The record of the slide of the block on `coords` in direction `dir`.
    pub open spec fn slide_record(self, coords: Point, dir: Direction) -> SlideRecord {
        let end = self.slide_end(coords, dir);
        SlideRecord {
            from: coords,
            direction: dir,
            to: end.pos,
            pushed: end.pushed,
            transform: end.transform,
        }
    }

    /// The grid after the block on `coords` was sent off in direction `dir`:
    /// unchanged if no block is there or it cannot move; else the block
    /// stands where it came to rest, turned as its way turned it, the gates
    /// stand where it pushed them, and the grid counts as modified.
    pub open spec fn slide(self, coords: Point, dir: Direction) -> GridModel {
        if self.slides(coords, dir) {
            let end = self.slide_end(coords, dir);
            GridModel {
                objects: end.objects,
                ice_blocks: self.ice_blocks.remove(coords).insert(
                    end.pos,
                    self.ice_blocks[coords].spec_transformed(end.transform),
                ),
                is_modified: true,
                ..self
            }
        } else {
            self
        }
    }

    /// True if the slide that `rec` records can be taken back on this grid:
    /// a block stands where the slide ended, and the cell where it began
    /// lies on the grid and holds neither wall nor gap.
    pub open spec fn can_undo(self, rec: SlideRecord) -> bool {
        &&& self.ice_blocks.contains_key(rec.to)
        &&& self.holds(rec.from)
        &&& !self.blocked_at(rec.from)
    }

    /// The grid after the slide that `rec` records was taken back: the
    /// block that stands where the slide ended returns to where it began,
    /// turned back, and the push-pop that the record names returns too, as
    /// far as its cell lies on the grid. Where
    /// the slide cannot be taken back the grid is unchanged.
    pub open spec fn undo(self, rec: SlideRecord) -> GridModel {
        if self.can_undo(rec) {
            GridModel {
                ice_blocks: self.ice_blocks.remove(rec.to).insert(
                    rec.from,
                    self.ice_blocks[rec.to].spec_transformed(rec.transform.spec_inverse()),
                ),
                objects: match rec.pushed {
                    Some(pp) => gate_returned(self.num_cols, self.num_rows, self.objects, pp),
                    None => self.objects,
                },
                ..self
            }
        } else {
            self
        }
    }

    /// True if every ice block stands on the goal for its symbol.
    pub open spec fn all_on_goals(self) -> bool {
        forall|p: Point| #[trigger]
            self.ice_blocks.contains_key(p) ==> self.objects.contains_key(p) && self.objects[p]
                == Object::Goal(self.ice_blocks[p])
    }

    /// The blocks of the solved grid: on each goal the block for it.
    pub open spec fn goal_blocks(self) -> Map<Point, Symbol> {
        Map::new(
            |p: Point| self.objects.contains_key(p) && self.objects[p] is Goal,
            |p: Point| self.objects[p]->Goal_0,
        )
    }
}

/// How far the cell lies in direction `dir`.
pub open spec fn along(p: Point, dir: Direction) -> int {
    match dir {
        Direction::East => p.x as int,
        Direction::West => -p.x,
        Direction::South => p.y as int,
        Direction::North => -p.y,
    }
}

/// A grid of fixed objects over which ice blocks slide.
pub struct ObjectGrid {
    num_cols: i32,
    num_rows: i32,
    objects: PointMap<Object>,
    ice_blocks: PointMap<Symbol>,
    is_modified: bool,
}

impl View for ObjectGrid {
    type V = GridModel;

    closed spec fn view(&self) -> GridModel {
        GridModel {
            num_cols: self.num_cols as int,
            num_rows: self.num_rows as int,
            objects: self.objects@,
            ice_blocks: self.ice_blocks@,
            is_modified: self.is_modified,
        }
    }
}

impl Clone for ObjectGrid {
    fn clone(&self) -> (r: Self)
        ensures
            r@ == self@,
            r.wf() == self.wf(),
    {
        ObjectGrid {
            num_cols: self.num_cols,
            num_rows: self.num_rows,
            objects: self.objects.clone(),
            ice_blocks: self.ice_blocks.clone(),
            is_modified: self.is_modified,
        }
    }
}

impl ObjectGrid {
    /// The invariant of the type: that of its value, with no cell holding
    /// two objects or two blocks.
    pub closed spec fn wf(&self) -> bool {
        &&& self.objects.wf()
        &&& self.ice_blocks.wf()
        &&& self@.wf()
    }

    /// What the invariant says of the value.
    pub proof fn lemma_wf(&self)
        requires
            self.wf(),
        ensures
            self@.wf(),
    {
    }

    /// Makes an empty grid of `num_cols` columns and `num_rows` rows.
    pub fn new(num_cols: usize, num_rows: usize) -> (g: ObjectGrid)
        requires
            num_cols <= i32::MAX,
            num_rows <= i32::MAX,
        ensures
            g.wf(),
            g@ == (GridModel {
                num_cols: num_cols as int,
                num_rows: num_rows as int,
                objects: Map::empty(),
                ice_blocks: Map::empty(),
                is_modified: false,
            }),
    {
        ObjectGrid {
            num_cols: num_cols as i32,
            num_rows: num_rows as i32,
            objects: PointMap::new(),
            ice_blocks: PointMap::new(),
            is_modified: false,
        }
    }

    /// Returns the number of columns and the number of rows.
    pub fn size(&self) -> (r: (i32, i32))
        ensures
            r.0 == self@.num_cols,
            r.1 == self@.num_rows,
    {
        (self.num_cols, self.num_rows)
    }

    /// Returns true if a block has moved since the grid was laid out.
    pub fn is_modified(&self) -> (r: bool)
        ensures
            r == self@.is_modified,
    {
        self.is_modified
    }

    /// Puts `obj` on the free cell in column `col` and row `row`.
    pub fn add_object(&mut self, col: i32, row: i32, obj: Object)
        requires
            old(self).wf(),
            old(self)@.holds(Point { x: col, y: row }),
            !old(self)@.objects.contains_key(Point { x: col, y: row }),
            obj.wf(),
            obj.blocks_cell() ==> !old(self)@.ice_blocks.contains_key(Point { x: col, y: row }),
        ensures
            final(self).wf(),
            final(self)@ == (GridModel {
                objects: old(self)@.objects.insert(Point { x: col, y: row }, obj),
                ..old(self)@
            }),
    {
        let coords = Point::new(col, row);
        self.objects.insert(coords, obj);
    }

    /// Returns the objects by cell.
    pub fn objects(&self) -> (r: &PointMap<Object>)
        ensures
            r@ == self@.objects,
            self.wf() ==> r.wf(),
    {
        &self.objects
    }

    /// Puts an ice block with `symbol` on the cell in column `col` and row
    /// `row`, which holds no block yet and neither wall nor gap.
    pub fn add_ice_block(&mut self, col: i32, row: i32, symbol: Symbol)
        requires
            old(self).wf(),
            old(self)@.holds(Point { x: col, y: row }),
            !old(self)@.ice_blocks.contains_key(Point { x: col, y: row }),
            !old(self)@.blocked_at(Point { x: col, y: row }),
            symbol.wf(),
        ensures
            final(self).wf(),
            final(self)@ == (GridModel {
                ice_blocks: old(self)@.ice_blocks.insert(Point { x: col, y: row }, symbol),
                ..old(self)@
            }),
    {
        let coords = Point::new(col, row);
        self.ice_blocks.insert(coords, symbol);
    }

    /// Returns the ice blocks by cell.
    pub fn ice_blocks(&self) -> (r: &PointMap<Symbol>)
        ensures
            r@ == self@.ice_blocks,
            self.wf() ==> r.wf(),
    {
        &self.ice_blocks
    }

    /// Returns true if the cell lies on the grid.
    fn holds(&self, p: Point) -> (r: bool)
        ensures
            r == self@.holds(p),
    {
        0 <= p.x && p.x < self.num_cols && 0 <= p.y && p.y < self.num_rows
    }

    /// Returns the first cell without an object at or beyond `start`.
    fn find_gate_target(&self, start: Point, dir: Direction) -> (r: Option<Point>)
        requires
            self.objects.wf(),
        ensures
            r == gate_target(self@.objects, start, dir),
    {
        let mut p = start;
        while self.objects.contains_key(p)
            invariant
                self.objects.wf(),
                gate_target(self@.objects, start, dir) == gate_target(self@.objects, p, dir),
            decreases room(p, dir),
        {
            match p.checked_step(dir) {
                Some(q) => {
                    p = q;
                },
                None => {
                    return None;
                },
            }
        }
        Some(p)
    }

    /// Returns where the push-pop on `gate` comes to rest when pushed.
    fn find_gate_move(&self, gate: Point, dir: Direction) -> (r: Option<Point>)
        requires
            self.objects.wf(),
            self.ice_blocks.wf(),
        ensures
            r == gate_move(
                self@.num_cols,
                self@.num_rows,
                self@.objects,
                self@.ice_blocks,
                gate,
                dir,
            ),
    {
        match gate.checked_step(dir) {
            Some(first) => match self.find_gate_target(first, dir) {
                Some(t) => if !self.holds(t) || self.ice_blocks.contains_key(t) {
                    None
                } else {
                    Some(t)
                },
                None => None,
            },
            None => None,
        }
    }

    /// Sends the ice block on `coords` off in direction `slide_dir`. It
    /// moves on until the next cell lies off the grid or holds another
    /// block, a wall, a gap or a gate that does not yield. A rotator on its
    /// way turns it, a reflector mirrors it, and a gate that points against
    /// the slide is pushed ahead to the first cell without an object and then
    /// points along the slide; it does not yield if that cell lies off the
    /// grid or a block stands there.
    /// Returns the record of the slide, or `None`, with the grid unchanged,
    /// if there is no block on `coords` or it cannot move.
    pub fn slide_ice_block(&mut self, coords: Point, slide_dir: Direction) -> (r: Option<BlockSlide>)
        requires
            old(self).wf(),
        ensures
            final(self).wf(),
            final(self)@ == old(self)@.slide(coords, slide_dir),
            match r {
                Some(slide) => old(self)@.slides(coords, slide_dir) && slide@ == old(self)@.slide_record(
                    coords,
                    slide_dir,
                ) && slide.wf(),
                None => !old(self)@.slides(coords, slide_dir),
            },
    {
        let symbol = match self.ice_blocks.remove(coords) {
            Some(s) => s,
            None => {
                assert(self@.ice_blocks =~= old(self)@.ice_blocks);
                return None;
            },
        };
        let ghost cols = self.num_cols as int;
        let ghost rows = self.num_rows as int;
        let ghost rest = self.ice_blocks@;
        let ghost end = old(self)@.slide_end(coords, slide_dir);
        let mut pos = coords;
        let mut pushed: Option<Point> = None;
        let mut transform = Transform::identity();
        let ghost mut pushes: nat = 0;
        let mut stopped = false;
        while !stopped
            invariant
                self.objects.wf(),
                self.ice_blocks.wf(),
                self.ice_blocks@ == rest,
                rest == old(self)@.ice_blocks.remove(coords),
                old(self)@.wf(),
                self.num_cols == cols,
                self.num_rows == rows,
                cols == old(self)@.num_cols,
                rows == old(self)@.num_rows,
                self.is_modified == old(self)@.is_modified,
                transform.wf(),
                in_bounds(cols, rows, pos),
                !self@.blocked_at(pos),
                forall|p: Point| self@.blocked_at(p) == old(self)@.blocked_at(p),
                forall|p: Point| #[trigger]
                    self@.objects.contains_key(p) ==> self@.objects[p].wf() && in_bounds(
                        cols,
                        rows,
                        p,
                    ),
                along(pos, slide_dir) >= along(coords, slide_dir),
                pos == coords ==> self@.objects == old(self)@.objects && transform
                    == Transform::spec_identity() && pushed is None,
                end == slide_run(
                    cols,
                    rows,
                    rest,
                    SlideState { pos, objects: self@.objects, transform, pushed, pushes },
                    slide_dir,
                ),
                stopped ==> slide_step(
                    cols,
                    rows,
                    rest,
                    SlideState { pos, objects: self@.objects, transform, pushed, pushes },
                    slide_dir,
                ) is None,
            decreases span(cols, rows, pos, slide_dir) + (if stopped { 0int } else { 1int }),
        {
            let ghost cur = SlideState { pos, objects: self@.objects, transform, pushed, pushes };
            let next_opt = pos.checked_step(slide_dir);
            let next = match next_opt {
                Some(n) => n,
                None => {
                    stopped = true;
                    continue ;
                },
            };
            if !self.holds(next) || self.ice_blocks.contains_key(next) {
                stopped = true;
                continue ;
            }
            assert(along(next, slide_dir) == along(pos, slide_dir) + 1);
            assert(span(cols, rows, next, slide_dir) == span(cols, rows, pos, slide_dir) - 1);
            match self.objects.get(next) {
                Some(Object::Gap) | Some(Object::Wall) => {
                    stopped = true;
                },
                Some(Object::PushPop(gate_dir)) => {
                    if gate_dir != slide_dir.opposite() {
                        stopped = true;
                    } else {
                        match self.find_gate_move(next, slide_dir) {
                            Some(target) => {
                                self.objects.remove(next);
                                self.objects.insert(target, Object::PushPop(slide_dir));
                                pushed = Some(target);
                                pos = next;
                                proof {
                                    pushes = pushes + 1;
                                    lemma_gate_target_is_free(cur.objects, next.step(slide_dir), slide_dir);
                                    assert(target != next);
                                }
                            },
                            None => {
                                stopped = true;
                            },
                        }
                    }
                },
                Some(Object::Rotator) => {
                    transform = transform.rotated_cw();
                    pos = next;
                },
                Some(Object::Reflector(false)) => {
                    transform = transform.flipped_horz();
                    pos = next;
                },
                Some(Object::Reflector(true)) => {
                    transform = transform.flipped_vert();
                    pos = next;
                },
                Some(Object::Goal(_)) => {
                    pos = next;
                },
                None => {
                    pos = next;
                },
            }
        }
        let moved = symbol.transformed(transform);
        self.ice_blocks.insert(pos, moved);
        if pos != coords {
            self.is_modified = true;
            let slide = BlockSlide { from: coords, direction: slide_dir, to: pos, pushed, transform };
            proof {
                assert(self@ =~= old(self)@.slide(coords, slide_dir));
            }
            Some(slide)
        } else {
            proof {
                crate::ice::symbol::lemma_transformed_back(symbol, transform);
                assert(self@.ice_blocks =~= old(self)@.ice_blocks);
                assert(self@ =~= old(self)@);
            }
            None
        }
    }

    /// Takes back the slide that `slide` records: the block that stands
    /// where the slide ended returns to where it began, turned back, and the
    /// gate that the record names goes back against the direction it points
    /// to, to the first cell without an object, and stays where it is if
    /// that cell lies off the grid. The grid is left unchanged if no block
    /// stands where the slide ended, or if the cell where it began lies off
    /// the grid or holds a wall or a gap.
    pub fn undo_slide(&mut self, slide: &BlockSlide)
        requires
            old(self).wf(),
            slide.wf(),
        ensures
            final(self).wf(),
            final(self)@ == old(self)@.undo(slide@),
    {
        if !self.holds(slide.from) {
            return ;
        }
        match self.objects.get(slide.from) {
            Some(Object::Gap) | Some(Object::Wall) => {
                return ;
            },
            _ => {},
        }
        let symbol = match self.ice_blocks.remove(slide.to) {
            Some(s) => s,
            None => {
                assert(self@.ice_blocks =~= old(self)@.ice_blocks);
                return ;
            },
        };
        assert(old(self)@.ice_blocks.contains_key(slide.to));
        assert(symbol == old(self)@.ice_blocks[slide.to]);
        assert(old(self)@.wf());
        assert(symbol.wf());
        let back = symbol.transformed(slide.transform.inverse());
        self.ice_blocks.insert(slide.from, back);
        if let Some(pp) = slide.pushed {
            if let Some(Object::PushPop(gate_dir)) = self.objects.get(pp) {
                let dir = gate_dir.opposite();
                if let Some(first) = pp.checked_step(dir) {
                    if let Some(target) = self.find_gate_target(first, dir) {
                        if self.holds(target) {
                            self.objects.remove(pp);
                            self.objects.insert(target, Object::PushPop(dir));
                        }
                    }
                }
            }
        }
        proof {
            assert(self@.objects =~= old(self)@.undo(slide@).objects);
            assert(self@ =~= old(self)@.undo(slide@));
        }
    }

    /// Repeats the slide that `slide` records: sends the block on the cell
    /// where that slide began off in its direction.
    pub fn redo_slide(&mut self, slide: &BlockSlide)
        requires
            old(self).wf(),
        ensures
            final(self).wf(),
            final(self)@ == old(self)@.slide(slide@.from, slide@.direction),
    {
        let _ = self.slide_ice_block(slide.from, slide.direction);
    }

    /// Returns true if every ice block stands on the goal for its symbol:
    /// the same letter, turned and mirrored the same way.
    pub fn all_blocks_on_goals(&self) -> (r: bool)
        requires
            self.wf(),
        ensures
            r == self@.all_on_goals(),
    {
        let n = self.ice_blocks.len();
        proof {
            self.ice_blocks.lemma_pairs();
        }
        let mut i: usize = 0;
        while i < n
            invariant
                self.wf(),
                n == self.ice_blocks.pairs().len(),
                i <= n,
                forall|j: int|
                    0 <= j < i ==> self@.objects.contains_key(
                        (#[trigger] self.ice_blocks.pairs()[j]).0,
                    ) && self@.objects[self.ice_blocks.pairs()[j].0] == Object::Goal(
                        self.ice_blocks.pairs()[j].1,
                    ),
            decreases n - i,
        {
            let (coords, block_sym) = self.ice_blocks.pair(i);
            proof {
                self.ice_blocks.lemma_pairs();
            }
            match self.objects.get(coords) {
                Some(Object::Goal(goal_sym)) => {
                    if goal_sym != block_sym {
                        return false;
                    }
                },
                _ => {
                    return false;
                },
            }
            i += 1;
        }
        proof {
            self.ice_blocks.lemma_pairs();
            assert forall|p: Point| #[trigger] self@.ice_blocks.contains_key(p) implies self@.objects.contains_key(p)
                && self@.objects[p] == Object::Goal(self@.ice_blocks[p]) by {
                let j = choose|j: int| 0 <= j < n && (#[trigger] self.ice_blocks.pairs()[j]).0 == p;
                assert(self@.objects.contains_key(self.ice_blocks.pairs()[j].0));
            }
        }
        true
    }

    /// Returns the grid with each goal covered by the block for it and no
    /// other block; it counts as modified.
    pub fn solved(self) -> (g: ObjectGrid)
        requires
            self.wf(),
        ensures
            g.wf(),
            g@ == (GridModel { ice_blocks: self@.goal_blocks(), is_modified: true, ..self@ }),
    {
        let mut g = self;
        g.ice_blocks.clear();
        let n = g.objects.len();
        proof {
            g.objects.lemma_pairs();
        }
        let mut i: usize = 0;
        while i < n
            invariant
                self.wf(),
                g.objects == self.objects,
                g.num_cols == self.num_cols,
                g.num_rows == self.num_rows,
                g.ice_blocks.wf(),
                n == g.objects.pairs().len(),
                i <= n,
                forall|p: Point| #[trigger]
                    g.ice_blocks@.contains_key(p) <==> exists|j: int|
                        0 <= j < i && (#[trigger] g.objects.pairs()[j]).0 == p
                            && g.objects.pairs()[j].1 is Goal,
                forall|p: Point| #[trigger]
                    g.ice_blocks@.contains_key(p) ==> self@.objects.contains_key(p)
                        && self@.objects[p] == Object::Goal(g.ice_blocks@[p]),
            decreases n - i,
        {
            let (coords, object) = g.objects.pair(i);
            proof {
                g.objects.lemma_pairs();
            }
            let ghost before = g.ice_blocks@;
            if let Object::Goal(symbol) = object {
                g.ice_blocks.insert(coords, symbol);
            }
            proof {
                assert forall|p: Point| #[trigger] g.ice_blocks@.contains_key(p) <==> exists|j: int|
                    0 <= j < i + 1 && (#[trigger] g.objects.pairs()[j]).0 == p
                        && g.objects.pairs()[j].1 is Goal by {
                    if g.ice_blocks@.contains_key(p) {
                        if before.contains_key(p) {
                            let j = choose|j: int|
                                0 <= j < i && (#[trigger] g.objects.pairs()[j]).0 == p
                                    && g.objects.pairs()[j].1 is Goal;
                            assert(0 <= j < i + 1 && g.objects.pairs()[j].0 == p);
                        } else {
                            assert(g.objects.pairs()[i as int].0 == p);
                        }
                    }
                    if exists|j: int|
                        0 <= j < i + 1 && (#[trigger] g.objects.pairs()[j]).0 == p
                            && g.objects.pairs()[j].1 is Goal {
                        let j = choose|j: int|
                            0 <= j < i + 1 && (#[trigger] g.objects.pairs()[j]).0 == p
                                && g.objects.pairs()[j].1 is Goal;
                        if j < i {
                            assert(before.contains_key(p));
                        }
                    }
                }
            }
            i += 1;
        }
        g.is_modified = true;
        proof {
            g.objects.lemma_pairs();
            assert forall|p: Point| g.ice_blocks@.contains_key(p) == self@.goal_blocks().contains_key(p) by {
                if self@.goal_blocks().contains_key(p) {
                    let j = choose|j: int| 0 <= j < n && (#[trigger] g.objects.pairs()[j]).0 == p;
                    assert(g.objects.pairs()[j].1 is Goal);
                }
            }
            assert(g.ice_blocks@ =~= self@.goal_blocks());
            assert(g@ =~= (GridModel { ice_blocks: self@.goal_blocks(), is_modified: true, ..self@ }));
        }
        g
    }
}

/// The cell that `gate_target` finds holds no object.
pub proof fn lemma_gate_target_is_free(objects: Map<Point, Object>, p: Point, dir: Direction)
    ensures
        gate_target(objects, p, dir) is Some ==> !objects.contains_key(gate_target(objects, p, dir)->0),
    decreases room(p, dir),
{
    if objects.contains_key(p) && p.can_step(dir) {
        lemma_gate_target_is_free(objects, p.step(dir), dir);
    }
}

/// The table that saves one ice block: its column, its row and its symbol.
pub open spec fn block_saved(block: (Point, Symbol)) -> Saved {
    Saved::Table(
        no_entries().insert("col"@, Saved::Integer(block.0.x as int)).insert(
            "row"@,
            Saved::Integer(block.0.y as int),
        ).insert("symbol"@, Saved::Integer(block.1.spec_code())),
    )
}

/// The table that saves one push-pop: its column, its row and its
/// direction.
pub open spec fn push_pop_saved(cell: Point, dir: Direction) -> Saved {
    Saved::Table(
        no_entries().insert("col"@, Saved::Integer(cell.x as int)).insert(
            "row"@,
            Saved::Integer(cell.y as int),
        ).insert("direction"@, Saved::Text(dir.spec_key())),
    )
}

/// The tables that save the ice blocks, in the order in which they are
/// stored.
pub open spec fn blocks_saved(pairs: Seq<(Point, Symbol)>) -> Seq<Saved> {
    Seq::new(pairs.len(), |i: int| block_saved(pairs[i]))
}

/// The tables that save the push-pops among the objects, in the order in
/// which the objects are stored.
pub open spec fn push_pops_saved(pairs: Seq<(Point, Object)>) -> Seq<Saved>
    decreases pairs.len(),
{
    if pairs.len() == 0 {
        Seq::empty()
    } else {
        match pairs.last().1 {
            Object::PushPop(dir) => push_pops_saved(pairs.drop_last()).push(
                push_pop_saved(pairs.last().0, dir),
            ),
            _ => push_pops_saved(pairs.drop_last()),
        }
    }
}

/// The ice block that a saved value stands for.
pub open spec fn block_read(m: Saved) -> (Point, Symbol) {
    let t = spec_to_table(m);
    (
        Point { x: spec_i32_at(t, "col"@) as i32, y: spec_i32_at(t, "row"@) as i32 },
        Symbol::from_model(entry(t, "symbol"@)),
    )
}

/// The push-pop that a saved value stands for: its cell and its direction.
pub open spec fn push_pop_read(m: Saved) -> (Point, Direction) {
    let t = spec_to_table(m);
    (
        Point { x: spec_i32_at(t, "col"@) as i32, y: spec_i32_at(t, "row"@) as i32 },
        Direction::from_model(entry(t, "direction"@)),
    )
}

/// The objects with the push-pops of `saved` put on their cells one after
/// the other, on a grid of `cols` columns and `rows` rows; `None` if one of
/// them comes on a cell off the grid or on a cell that holds an object.
pub open spec fn with_push_pops(
    cols: int,
    rows: int,
    objects: Map<Point, Object>,
    saved: Seq<Saved>,
) -> Option<Map<Point, Object>>
    decreases saved.len(),
{
    if saved.len() == 0 {
        Some(objects)
    } else {
        match with_push_pops(cols, rows, objects, saved.drop_last()) {
            Some(sofar) => {
                let (cell, dir) = push_pop_read(saved.last());
                if !in_bounds(cols, rows, cell) || sofar.contains_key(cell) {
                    None
                } else {
                    Some(sofar.insert(cell, Object::PushPop(dir)))
                }
            },
            None => None,
        }
    }
}

/// The ice blocks of `saved` put on their cells one after the other;
/// `None` if one of them comes on a cell that holds a block, a wall or a
/// gap.
pub open spec fn with_blocks(objects: Map<Point, Object>, saved: Seq<Saved>) -> Option<Map<Point, Symbol>>
    decreases saved.len(),
{
    if saved.len() == 0 {
        Some(Map::empty())
    } else {
        match with_blocks(objects, saved.drop_last()) {
            Some(sofar) => {
                let (cell, symbol) = block_read(saved.last());
                if sofar.contains_key(cell) || (objects.contains_key(cell)
                    && objects[cell].blocks_cell()) {
                    None
                } else {
                    Some(sofar.insert(cell, symbol))
                }
            },
            None => None,
        }
    }
}

impl GridModel {
    /// The value that saves the blocks and the push-pops of a grid whose
    /// blocks and objects are stored in the given order.
    pub open spec fn saved(blocks: Seq<(Point, Symbol)>, objects: Seq<(Point, Object)>) -> Saved {
        Saved::Table(
            no_entries().insert("blocks"@, Saved::Array(blocks_saved(blocks))).insert(
                "push_pops"@,
                Saved::Array(push_pops_saved(objects)),
            ),
        )
    }

    /// The objects of the grid without its push-pops.
    pub open spec fn fixed_objects(self) -> Map<Point, Object> {
        Map::new(
            |p: Point| self.objects.contains_key(p) && !self.objects[p].is_gate(),
            |p: Point| self.objects[p],
        )
    }

    /// True if every block of `saved` stands on the grid.
    pub open spec fn holds_blocks(self, saved: Seq<Saved>) -> bool {
        forall|i: int| 0 <= i < saved.len() ==> self.holds(block_read(#[trigger] saved[i]).0)
    }

    /// The grid that the table `saved` stands for, `self` being the grid as
    /// it is laid out at first: the fixed objects of `self` with the blocks
    /// and the push-pops of `saved`. It counts as modified if it differs
    /// from `self`. The result is `self` where `saved` does not fit: a block
    /// or a push-pop off the grid, another number of blocks than `self` has,
    /// two things on one cell, or a block on a wall or a gap.
    pub open spec fn restored(self, saved: Map<Seq<char>, Saved>) -> GridModel {
        let blocks = spec_to_array(entry(saved, "blocks"@));
        let push_pops = spec_to_array(entry(saved, "push_pops"@));
        if !self.holds_blocks(blocks) || blocks.len() != self.ice_blocks.dom().len() {
            self
        } else {
            match with_push_pops(self.num_cols, self.num_rows, self.fixed_objects(), push_pops) {
                Some(objects) => match with_blocks(objects, blocks) {
                    Some(ice_blocks) => GridModel {
                        objects,
                        ice_blocks,
                        is_modified: ice_blocks != self.ice_blocks || objects != self.objects,
                        ..self
                    },
                    None => self,
                },
                None => self,
            }
        }
    }
}

/// Returns the ice block that `value` stands for.
fn read_block(value: &toml::Value) -> (r: (Point, Symbol))
    ensures
        r == block_read(value_model(*value)),
        r.1.wf(),
{
    match value_as_table(value) {
        Some(t) => {
            let col = i32_at(t, "col");
            let row = i32_at(t, "row");
            let symbol = match table_get(t, "symbol") {
                Some(v) => Symbol::from_toml(v),
                None => Symbol::with_code(-1),
            };
            (Point::new(col, row), symbol)
        },
        None => (Point::new(0, 0), Symbol::with_code(-1)),
    }
}

/// Returns the push-pop that `value` stands for.
fn read_push_pop(value: &toml::Value) -> (r: (Point, Direction))
    ensures
        r == push_pop_read(value_model(*value)),
{
    match value_as_table(value) {
        Some(t) => {
            let col = i32_at(t, "col");
            let row = i32_at(t, "row");
            let dir = match table_get(t, "direction") {
                Some(v) => Direction::from_toml(v),
                None => Direction::East,
            };
            (Point::new(col, row), dir)
        },
        None => (Point::new(0, 0), Direction::East),
    }
}

/// Returns true if the two maps bind the same cells to the same objects.
fn same_objects(a: &PointMap<Object>, b: &PointMap<Object>) -> (r: bool)
    requires
        a.wf(),
        b.wf(),
    ensures
        r == (a@ == b@),
{
    let inside = objects_within(a, b) && objects_within(b, a);
    proof {
        if inside {
            assert(a@ =~= b@);
        }
    }
    inside
}

/// Returns true if `b` binds every cell of `a` as `a` does.
fn objects_within(a: &PointMap<Object>, b: &PointMap<Object>) -> (r: bool)
    requires
        a.wf(),
        b.wf(),
    ensures
        r == (forall|p: Point| #[trigger] a@.contains_key(p) ==> b@.contains_key(p) && b@[p] == a@[p]),
{
    let n = a.len();
    proof {
        a.lemma_pairs();
    }
    let mut i: usize = 0;
    while i < n
        invariant
            a.wf(),
            b.wf(),
            n == a.pairs().len(),
            i <= n,
            forall|j: int|
                0 <= j < i ==> b@.contains_key((#[trigger] a.pairs()[j]).0) && b@[a.pairs()[j].0]
                    == a.pairs()[j].1,
        decreases n - i,
    {
        let (p, obj) = a.pair(i);
        proof {
            a.lemma_pairs();
        }
        match b.get(p) {
            Some(other) => {
                if other != obj {
                    assert(a@.contains_key(p));
                    return false;
                }
            },
            None => {
                assert(a@.contains_key(p));
                return false;
            },
        }
        i += 1;
    }
    proof {
        a.lemma_pairs();
        assert forall|p: Point| #[trigger] a@.contains_key(p) implies b@.contains_key(p) && b@[p] == a@[p] by {
            let j = choose|j: int| 0 <= j < n && (#[trigger] a.pairs()[j]).0 == p;
            assert(b@.contains_key(a.pairs()[j].0));
        }
    }
    true
}

/// Returns true if the two maps bind the same cells to the same symbols.
fn same_blocks(a: &PointMap<Symbol>, b: &PointMap<Symbol>) -> (r: bool)
    requires
        a.wf(),
        b.wf(),
    ensures
        r == (a@ == b@),
{
    let inside = blocks_within(a, b) && blocks_within(b, a);
    proof {
        if inside {
            assert(a@ =~= b@);
        }
    }
    inside
}

/// Returns true if `b` binds every cell of `a` as `a` does.
fn blocks_within(a: &PointMap<Symbol>, b: &PointMap<Symbol>) -> (r: bool)
    requires
        a.wf(),
        b.wf(),
    ensures
        r == (forall|p: Point| #[trigger] a@.contains_key(p) ==> b@.contains_key(p) && b@[p] == a@[p]),
{
    let n = a.len();
    proof {
        a.lemma_pairs();
    }
    let mut i: usize = 0;
    while i < n
        invariant
            a.wf(),
            b.wf(),
            n == a.pairs().len(),
            i <= n,
            forall|j: int|
                0 <= j < i ==> b@.contains_key((#[trigger] a.pairs()[j]).0) && b@[a.pairs()[j].0]
                    == a.pairs()[j].1,
        decreases n - i,
    {
        let (p, symbol) = a.pair(i);
        proof {
            a.lemma_pairs();
        }
        match b.get(p) {
            Some(other) => {
                if other != symbol {
                    assert(a@.contains_key(p));
                    return false;
                }
            },
            None => {
                assert(a@.contains_key(p));
                return false;
            },
        }
        i += 1;
    }
    proof {
        a.lemma_pairs();
        assert forall|p: Point| #[trigger] a@.contains_key(p) implies b@.contains_key(p) && b@[p] == a@[p] by {
            let j = choose|j: int| 0 <= j < n && (#[trigger] a.pairs()[j]).0 == p;
            assert(b@.contains_key(a.pairs()[j].0));
        }
    }
    true
}

impl ObjectGrid {
    /// What `to_toml` returns: the blocks and the push-pops in the order in
    /// which the grid stores them.
    pub closed spec fn spec_to_toml(&self) -> Saved {
        GridModel::saved(self.ice_blocks.pairs(), self.objects.pairs())
    }

    /// The value that saves a grid holds its blocks and its push-pops, each
    /// once.
    pub proof fn lemma_to_toml(&self)
        requires
            self.wf(),
        ensures
            exists|blocks: Seq<(Point, Symbol)>, objects: Seq<(Point, Object)>|
                #![trigger GridModel::saved(blocks, objects)]
                {
                    &&& self.spec_to_toml() == GridModel::saved(blocks, objects)
                    &&& crate::cells::distinct_cells(blocks)
                    &&& crate::cells::distinct_cells(objects)
                    &&& crate::cells::pairs_to_map(blocks) == self@.ice_blocks
                    &&& crate::cells::pairs_to_map(objects) == self@.objects
                },
    {
        self.ice_blocks.lemma_pairs();
        self.objects.lemma_pairs();
        assert(self.spec_to_toml() == GridModel::saved(self.ice_blocks.pairs(), self.objects.pairs()));
    }

    /// Returns the value that saves the grid: a table with the list of the
    /// blocks under "blocks", each a table with "col", "row" and "symbol",
    /// and the list of the push-pops under "push_pops", each a table with
    /// "col", "row" and "direction".
    #[verifier::loop_isolation(false)]
    pub fn to_toml(&self) -> (v: toml::Value)
        requires
            self.wf(),
        ensures
            value_model(v) == self.spec_to_toml(),
    {
        let mut blocks: Vec<toml::Value> = Vec::new();
        let n = self.ice_blocks.len();
        let mut i: usize = 0;
        while i < n
            invariant
                self.wf(),
                n == self.ice_blocks.pairs().len(),
                i <= n,
                values_model(blocks@) == blocks_saved(self.ice_blocks.pairs().subrange(0, i as int)),
            decreases n - i,
        {
            let (coords, symbol) = self.ice_blocks.pair(i);
            proof {
                self.ice_blocks.lemma_pairs();
                assert(self@.ice_blocks.contains_key(coords));
            }
            let mut block = new_table();
            table_insert(&mut block, "col", integer_value(coords.x as i64));
            table_insert(&mut block, "row", integer_value(coords.y as i64));
            table_insert(&mut block, "symbol", symbol.to_toml());
            let ghost before = blocks@;
            let saved = table_value(block);
            blocks.push(saved);
            proof {
                lemma_values_push(before, saved);
                assert(value_model(saved) == block_saved(self.ice_blocks.pairs()[i as int]));
                assert(values_model(blocks@) =~= blocks_saved(
                    self.ice_blocks.pairs().subrange(0, i + 1),
                ));
            }
            i += 1;
        }
        let mut push_pops: Vec<toml::Value> = Vec::new();
        let m = self.objects.len();
        let mut j: usize = 0;
        proof {
            assert(self.ice_blocks.pairs().subrange(0, n as int) =~= self.ice_blocks.pairs());
            assert(self.objects.pairs().subrange(0, 0) =~= Seq::<(Point, Object)>::empty());
            assert(values_model(push_pops@) =~= Seq::<Saved>::empty());
        }
        while j < m
            invariant
                m == self.objects.pairs().len(),
                j <= m,
                values_model(push_pops@) == push_pops_saved(self.objects.pairs().subrange(0, j as int)),
            decreases m - j,
        {
            let (coords, object) = self.objects.pair(j);
            proof {
                assert(self.objects.pairs().subrange(0, j + 1).drop_last() =~= self.objects.pairs().subrange(
                    0,
                    j as int,
                ));
            }
            if let Object::PushPop(direction) = object {
                let mut push_pop = new_table();
                table_insert(&mut push_pop, "col", integer_value(coords.x as i64));
                table_insert(&mut push_pop, "row", integer_value(coords.y as i64));
                table_insert(&mut push_pop, "direction", direction.to_toml());
                let ghost before = push_pops@;
                let saved = table_value(push_pop);
                push_pops.push(saved);
                proof {
                    lemma_values_push(before, saved);
                    assert(values_model(push_pops@) =~= push_pops_saved(
                        self.objects.pairs().subrange(0, j + 1),
                    ));
                }
            }
            j += 1;
        }
        proof {
            assert(self.objects.pairs().subrange(0, m as int) =~= self.objects.pairs());
        }
        let mut table = new_table();
        table_insert(&mut table, "blocks", array_value(blocks));
        table_insert(&mut table, "push_pops", array_value(push_pops));
        table_value(table)
    }

    /// Returns the grid that `table` stands for, `default` being the grid
    /// as it is laid out at first: the fixed objects of `default` with the
    /// blocks and the push-pops of `table`. Returns a copy of `default`
    /// where `table` does not fit: a block or a push-pop off the grid,
    /// another number of blocks than `default` has, two things on one cell,
    /// or a block on a wall or a gap.
    #[verifier::loop_isolation(false)]
    pub fn from_toml(table: toml::value::Table, default: &ObjectGrid) -> (g: ObjectGrid)
        requires
            default.wf(),
        ensures
            g.wf(),
            g@ == default@.restored(table_model(table)),
    {
        let ghost saved_blocks = spec_to_array(entry(table_model(table), "blocks"@));
        let ghost saved_gates = spec_to_array(entry(table_model(table), "push_pops"@));
        let mut blocks: Vec<(Point, Symbol)> = Vec::new();
        match array_at(&table, "blocks") {
            Some(list) => {
                let mut i: usize = 0;
                while i < list.len()
                    invariant
                        i <= list@.len(),
                        values_model(list@) == saved_blocks,
                        blocks@.len() == i,
                        forall|k: int|
                            0 <= k < i ==> #[trigger] blocks@[k] == block_read(saved_blocks[k])
                                && default@.holds(blocks@[k].0) && blocks@[k].1.wf(),
                    decreases list@.len() - i,
                {
                    let block = read_block(&list[i]);
                    assert(values_model(list@)[i as int] == value_model(list@[i as int]));
                    if !default.holds(block.0) {
                        assert(!default@.holds(block_read(saved_blocks[i as int]).0));
                        return default.clone();
                    }
                    blocks.push(block);
                    i += 1;
                }
            },
            None => {},
        }
        assert(blocks@.len() == saved_blocks.len());
        assert(default@.holds_blocks(saved_blocks)) by {
            assert forall|k: int| 0 <= k < saved_blocks.len() implies default@.holds(
                block_read(#[trigger] saved_blocks[k]).0,
            ) by {
                assert(blocks@[k] == block_read(saved_blocks[k]));
            }
        }
        if blocks.len() != default.ice_blocks.len() {
            return default.clone();
        }
        let mut objects: PointMap<Object> = PointMap::new();
        let n = default.objects.len();
        let mut a: usize = 0;
        proof {
            default.objects.lemma_pairs();
        }
        while a < n
            invariant
                default.wf(),
                n == default.objects.pairs().len(),
                a <= n,
                objects.wf(),
                forall|p: Point| #[trigger]
                    objects@.contains_key(p) ==> default@.fixed_objects().contains_key(p)
                        && objects@[p] == default@.objects[p],
                forall|k: int|
                    0 <= k < a && !(#[trigger] default.objects.pairs()[k]).1.is_gate()
                        ==> objects@.contains_key(default.objects.pairs()[k].0),
            decreases n - a,
        {
            let (cell, object) = default.objects.pair(a);
            proof {
                default.objects.lemma_pairs();
            }
            match object {
                Object::PushPop(_) => {},
                _ => {
                    objects.insert(cell, object);
                },
            }
            a += 1;
        }
        proof {
            default.objects.lemma_pairs();
            assert forall|p: Point| default@.fixed_objects().contains_key(p) implies objects@.contains_key(p) by {
                let k = choose|k: int| 0 <= k < n && (#[trigger] default.objects.pairs()[k]).0 == p;
                assert(objects@.contains_key(default.objects.pairs()[k].0));
            }
            assert(objects@ =~= default@.fixed_objects());
        }
        match array_at(&table, "push_pops") {
            Some(list) => {
                let mut i: usize = 0;
                proof {
                    assert(saved_gates.subrange(0, 0) =~= Seq::<Saved>::empty());
                }
                while i < list.len()
                    invariant
                        i <= list@.len(),
                        values_model(list@) == saved_gates,
                        default.wf(),
                        objects.wf(),
                        with_push_pops(
                            default@.num_cols,
                            default@.num_rows,
                            default@.fixed_objects(),
                            saved_gates.subrange(0, i as int),
                        ) == Some(objects@),
                        forall|p: Point| #[trigger]
                            objects@.contains_key(p) ==> objects@[p].wf() && default@.holds(p) && (
                            objects@[p].blocks_cell() ==> default@.blocked_at(p)),
                    decreases list@.len() - i,
                {
                    let (cell, dir) = read_push_pop(&list[i]);
                    proof {
                        assert(values_model(list@)[i as int] == value_model(list@[i as int]));
                        assert(saved_gates.subrange(0, i + 1).drop_last() =~= saved_gates.subrange(
                            0,
                            i as int,
                        ));
                    }
                    if !default.holds(cell) || objects.contains_key(cell) {
                        proof {
                            lemma_push_pops_fail(
                                default@.num_cols,
                                default@.num_rows,
                                default@.fixed_objects(),
                                saved_gates,
                                i + 1,
                            );
                        }
                        return default.clone();
                    }
                    objects.insert(cell, Object::PushPop(dir));
                    i += 1;
                }
                proof {
                    assert(saved_gates.subrange(0, list@.len() as int) =~= saved_gates);
                }
            },
            None => {},
        }
        assert(with_push_pops(
            default@.num_cols,
            default@.num_rows,
            default@.fixed_objects(),
            saved_gates,
        ) == Some(objects@));
        let mut ice_blocks: PointMap<Symbol> = PointMap::new();
        let mut b: usize = 0;
        proof {
            assert(saved_blocks.subrange(0, 0) =~= Seq::<Saved>::empty());
        }
        while b < blocks.len()
            invariant
                b <= blocks@.len(),
                blocks@.len() == saved_blocks.len(),
                default.wf(),
                objects.wf(),
                ice_blocks.wf(),
                forall|k: int|
                    0 <= k < blocks@.len() ==> #[trigger] blocks@[k] == block_read(saved_blocks[k])
                        && default@.holds(blocks@[k].0) && blocks@[k].1.wf(),
                with_blocks(objects@, saved_blocks.subrange(0, b as int)) == Some(ice_blocks@),
                forall|p: Point| #[trigger]
                    ice_blocks@.contains_key(p) ==> default@.holds(p) && !(objects@.contains_key(p)
                        && objects@[p].blocks_cell()) && ice_blocks@[p].wf(),
            decreases blocks@.len() - b,
        {
            let (cell, symbol) = blocks[b];
            proof {
                assert(saved_blocks.subrange(0, b + 1).drop_last() =~= saved_blocks.subrange(
                    0,
                    b as int,
                ));
            }
            let blocked = match objects.get(cell) {
                Some(Object::Gap) | Some(Object::Wall) => true,
                _ => false,
            };
            if blocked || ice_blocks.contains_key(cell) {
                proof {
                    lemma_blocks_fail(objects@, saved_blocks, b + 1);
                }
                return default.clone();
            }
            ice_blocks.insert(cell, symbol);
            b += 1;
        }
        proof {
            assert(saved_blocks.subrange(0, blocks@.len() as int) =~= saved_blocks);
        }
        let is_modified = !same_blocks(&ice_blocks, &default.ice_blocks) || !same_objects(
            &objects,
            &default.objects,
        );
        ObjectGrid {
            num_cols: default.num_cols,
            num_rows: default.num_rows,
            objects,
            ice_blocks,
            is_modified,
        }
    }
}

/// Once a push-pop has found no cell for it, no further push-pop mends it.
pub proof fn lemma_push_pops_fail(
    cols: int,
    rows: int,
    objects: Map<Point, Object>,
    saved: Seq<Saved>,
    k: int,
)
    requires
        0 <= k <= saved.len(),
        with_push_pops(cols, rows, objects, saved.subrange(0, k)) is None,
    ensures
        with_push_pops(cols, rows, objects, saved) is None,
    decreases saved.len() - k,
{
    if k < saved.len() {
        assert(saved.subrange(0, k + 1).drop_last() =~= saved.subrange(0, k));
        lemma_push_pops_fail(cols, rows, objects, saved, k + 1);
    } else {
        assert(saved.subrange(0, k) =~= saved);
    }
}

/// Once a block has found its cell taken, no further block mends it.
pub proof fn lemma_blocks_fail(objects: Map<Point, Object>, saved: Seq<Saved>, k: int)
    requires
        0 <= k <= saved.len(),
        with_blocks(objects, saved.subrange(0, k)) is None,
    ensures
        with_blocks(objects, saved) is None,
    decreases saved.len() - k,
{
    if k < saved.len() {
        assert(saved.subrange(0, k + 1).drop_last() =~= saved.subrange(0, k));
        lemma_blocks_fail(objects, saved, k + 1);
    } else {
        assert(saved.subrange(0, k) =~= saved);
    }
}

} // verus!
