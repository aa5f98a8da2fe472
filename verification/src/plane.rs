pub mod links;
pub mod tidy;

use crate::cells::PointMap;
use crate::point::{Point, Rect};
use crate::saved::{
    array_value, integer_value, lemma_values_push, spec_to_array, spec_to_i32, to_i32,
    value_as_array, value_model, values_model, Saved,
};
use vstd::prelude::*;

verus! {

/// What a cell of a pipe grid can hold besides pipes.
#[derive(Clone, Copy, Debug, PartialEq, Eq, Structural)]
pub enum PlaneObj {
    Wall,
    Cross,
    PurpleNode,
    RedNode,
    BlueNode,
}

impl PlaneObj {
    /// True for the three kinds of node.
    pub open spec fn spec_is_node(self) -> bool {
        self == PlaneObj::PurpleNode || self == PlaneObj::RedNode || self == PlaneObj::BlueNode
    }

    /// Returns true for the three kinds of node.
    #[verifier::when_used_as_spec(spec_is_node)]
    pub fn is_node(self) -> (r: bool)
        ensures
            r == self.spec_is_node(),
    {
        match self {
            PlaneObj::Wall | PlaneObj::Cross => false,
            PlaneObj::PurpleNode | PlaneObj::RedNode | PlaneObj::BlueNode => true,
        }
    }
}

/// How one end of an edge meets the pipes that are already laid.
#[derive(Clone, Copy, Debug, PartialEq, Eq, Structural)]
pub enum PipePiece {
    /// No pipe counts as passing here; the flag tells a node from a free cell.
    EmptyOrNode(bool),
    /// The first point of the pipe with this index.
    Start(usize),
    /// An inner point of a pipe: the pipe's index, then the point's.
    Middle(usize, usize),
    /// The last point of the pipe with this index.
    End(usize),
}

/// The mathematical value of a pipe grid.
pub struct PlaneModel {
    pub rect: Rect,
    pub objects: Map<Point, PlaneObj>,
    pub pipes: Seq<Seq<Point>>,
}

/// The pipes of a vector of point vectors, each as a sequence of points.
pub open spec fn pipes_model(v: Seq<Vec<Point>>) -> Seq<Seq<Point>> {
    Seq::new(v.len(), |i: int| v[i]@)
}

/// Every pipe has at least two points.
pub open spec fn pipes_ok(pipes: Seq<Seq<Point>>) -> bool {
    forall|i: int| 0 <= i < pipes.len() ==> (#[trigger] pipes[i]).len() >= 2
}

/// The sequence without its element at `p`, the last element having taken
/// that place.
pub open spec fn swap_removed<T>(s: Seq<T>, p: int) -> Seq<T> {
    s.update(p, s.last()).drop_last()
}

/// The pipes that do not pass through `pt`, in their old order.
pub open spec fn pipes_avoiding(pipes: Seq<Seq<Point>>, pt: Point) -> Seq<Seq<Point>>
    decreases pipes.len(),
{
    if pipes.len() == 0 {
        pipes
    } else if pipes.last().contains(pt) {
        pipes_avoiding(pipes.drop_last(), pt)
    } else {
        pipes_avoiding(pipes.drop_last(), pt).push(pipes.last())
    }
}

/// True if the point with index `k` of `pipe` is `coords` and counts for an
/// edge of the given orientation. On a crossing a pipe counts only along the
/// axis by which it arrives: the axis of the step from the point before, or,
/// for the first point, to the point after.
pub open spec fn piece_fits(pipe: Seq<Point>, k: int, coords: Point, cross: bool, vertical: bool) -> bool {
    &&& pipe[k] == coords
    &&& cross ==> (pipe[if k == 0 { 1 } else { k - 1 }].x == coords.x) == vertical
}

/// The index of the first fitting point of `pipe` at or after `from`.
pub open spec fn first_fit_in(pipe: Seq<Point>, from: int, coords: Point, cross: bool, vertical: bool) -> Option<int>
    decreases pipe.len() - from,
{
    if from < 0 || from >= pipe.len() {
        None
    } else if piece_fits(pipe, from, coords, cross, vertical) {
        Some(from)
    } else {
        first_fit_in(pipe, from + 1, coords, cross, vertical)
    }
}

/// The first fitting point among the pipes with index `from` or more: the
/// pipe's index and the point's.
pub open spec fn first_fit(pipes: Seq<Seq<Point>>, from: int, coords: Point, cross: bool, vertical: bool) -> Option<(int, int)>
    decreases pipes.len() - from,
{
    if from < 0 || from >= pipes.len() {
        None
    } else {
        match first_fit_in(pipes[from], 0, coords, cross, vertical) {
            Some(k) => Some((from, k)),
            None => first_fit(pipes, from + 1, coords, cross, vertical),
        }
    }
}

/// The kind of the point with index `k` in a pipe of `len` points.
pub open spec fn piece_kind(len: int, p: int, k: int) -> PipePiece {
    if k == 0 {
        PipePiece::Start(p as usize)
    } else if k + 1 == len {
        PipePiece::End(p as usize)
    } else {
        PipePiece::Middle(p as usize, k as usize)
    }
}

/// How the cell `coords` meets the pipes, for an edge of the given
/// orientation. A node never counts as part of a pipe.
pub open spec fn piece_at(objects: Map<Point, PlaneObj>, pipes: Seq<Seq<Point>>, coords: Point, vertical: bool) -> PipePiece {
    if objects.contains_key(coords) && objects[coords].spec_is_node() {
        PipePiece::EmptyOrNode(true)
    } else {
        let cross = objects.contains_key(coords) && objects[coords] == PlaneObj::Cross;
        match first_fit(pipes, 0, coords, cross, vertical) {
            Some((p, k)) => piece_kind(pipes[p].len() as int, p, k),
            None => PipePiece::EmptyOrNode(false),
        }
    }
}

/// True if `piece` names a place in `pipes` and the point there is `coords`.
pub open spec fn piece_ok(pipes: Seq<Seq<Point>>, piece: PipePiece, coords: Point) -> bool {
    match piece {
        PipePiece::EmptyOrNode(_) => true,
        PipePiece::Start(p) => p < pipes.len() && pipes[p as int][0] == coords,
        PipePiece::Middle(p, k) => p < pipes.len() && 0 < k && k + 1 < pipes[p as int].len()
            && pipes[p as int][k as int] == coords,
        PipePiece::End(p) => p < pipes.len() && pipes[p as int].last() == coords,
    }
}

/// True if the pipe consists of the two given points, in either order.
pub open spec fn joins(pipe: Seq<Point>, a: Point, b: Point) -> bool {
    pipe.len() == 2 && ((pipe[0] == a && pipe[1] == b) || (pipe[0] == b && pipe[1] == a))
}

/// The index of the first pipe at or after `from` that consists of the two
/// given points.
pub open spec fn first_joining(pipes: Seq<Seq<Point>>, from: int, a: Point, b: Point) -> Option<int>
    decreases pipes.len() - from,
{
    if from < 0 || from >= pipes.len() {
        None
    } else if joins(pipes[from], a, b) {
        Some(from)
    } else {
        first_joining(pipes, from + 1, a, b)
    }
}

/// The pipes after the edge towards `c` was toggled at the first point of
/// pipe `p`: the pipe goes if `c` is a node and its second point, else it
/// grows by `c` at the front.
pub open spec fn toggled_at_start(pipes: Seq<Seq<Point>>, p: int, node: bool, c: Point) -> Seq<Seq<Point>> {
    if node && pipes[p][1] == c {
        swap_removed(pipes, p)
    } else {
        pipes.update(p, pipes[p].insert(0, c))
    }
}

/// The pipes after the edge towards `c` was toggled at the last point of
/// pipe `p`: a pipe of two points that starts at the node `c` goes, any other
/// grows by `c` at the back.
pub open spec fn toggled_at_end(pipes: Seq<Seq<Point>>, p: int, node: bool, c: Point) -> Seq<Seq<Point>> {
    if node && pipes[p].len() == 2 && pipes[p][0] == c {
        swap_removed(pipes, p)
    } else {
        pipes.update(p, pipes[p].push(c))
    }
}

/// The pipes after the edge towards the node or free cell `c` was toggled at
/// the inner point `k` of pipe `p`: the pipe loses an end point that is the
/// node `c` and lies next to `k`; anything else is refused.
pub open spec fn toggled_at_middle(pipes: Seq<Seq<Point>>, p: int, k: int, node: bool, c: Point) -> Option<Seq<Seq<Point>>> {
    if node && k == 1 && pipes[p][0] == c {
        Some(pipes.update(p, pipes[p].remove(0)))
    } else if node && k + 2 == pipes[p].len() && pipes[p][k + 1] == c {
        Some(pipes.update(p, pipes[p].drop_last()))
    } else {
        None
    }
}

/// The pipes after the end of pipe `e` and the start of pipe `s` were
/// joined: a pipe of two points whose own ends these are goes, a longer one
/// refuses; two different pipes become one that runs through `e`, then `s`.
pub open spec fn toggled_end_start(pipes: Seq<Seq<Point>>, e: int, s: int) -> Option<Seq<Seq<Point>>> {
    if e == s {
        if pipes[e].len() == 2 {
            Some(swap_removed(pipes, e))
        } else {
            None
        }
    } else if e < s {
        Some(swap_removed(pipes, s).update(e, pipes[e] + pipes[s]))
    } else {
        Some(swap_removed(swap_removed(pipes, e), s).push(pipes[e] + pipes[s]))
    }
}

/// The pipes after the edge from `c1` to `c2` was toggled, given how each end
/// meets the pipes; `None` where the edge is refused.
pub open spec fn toggled_pipes(pipes: Seq<Seq<Point>>, piece1: PipePiece, piece2: PipePiece, c1: Point, c2: Point) -> Option<Seq<Seq<Point>>> {
    match (piece1, piece2) {
        (PipePiece::EmptyOrNode(n1), PipePiece::EmptyOrNode(n2)) => {
            let direct = first_joining(pipes, 0, c1, c2);
            if n1 && n2 && direct is Some {
                Some(swap_removed(pipes, direct->0))
            } else {
                Some(pipes.push(seq![c1, c2]))
            }
        },
        (PipePiece::EmptyOrNode(n), PipePiece::Start(p2)) => Some(toggled_at_start(pipes, p2 as int, n, c1)),
        (PipePiece::EmptyOrNode(n), PipePiece::End(p2)) => Some(toggled_at_end(pipes, p2 as int, n, c1)),
        (PipePiece::Start(p1), PipePiece::EmptyOrNode(n)) => Some(toggled_at_start(pipes, p1 as int, n, c2)),
        (PipePiece::End(p1), PipePiece::EmptyOrNode(n)) => Some(toggled_at_end(pipes, p1 as int, n, c2)),
        (PipePiece::Start(p1), PipePiece::Start(p2)) => {
            let lo = if p1 <= p2 { p1 as int } else { p2 as int };
            let hi = if p1 <= p2 { p2 as int } else { p1 as int };
            Some(swap_removed(pipes, hi).update(lo, pipes[lo].reverse() + pipes[hi]))
        },
        (PipePiece::End(p1), PipePiece::End(p2)) => {
            let lo = if p1 <= p2 { p1 as int } else { p2 as int };
            let hi = if p1 <= p2 { p2 as int } else { p1 as int };
            Some(swap_removed(pipes, hi).update(lo, pipes[lo] + pipes[hi].reverse()))
        },
        (PipePiece::End(e), PipePiece::Start(s)) => toggled_end_start(pipes, e as int, s as int),
        (PipePiece::Start(s), PipePiece::End(e)) => toggled_end_start(pipes, e as int, s as int),
        (PipePiece::Start(p), PipePiece::Middle(q, k)) | (PipePiece::Middle(q, k), PipePiece::Start(p)) => {
            if p == q && k == 1 {
                Some(pipes.update(p as int, pipes[p as int].remove(0)))
            } else {
                None
            }
        },
        (PipePiece::Middle(q, k), PipePiece::End(p)) | (PipePiece::End(p), PipePiece::Middle(q, k)) => {
            if p == q && k + 2 == pipes[p as int].len() {
                Some(pipes.update(p as int, pipes[p as int].drop_last()))
            } else {
                None
            }
        },
        (PipePiece::Middle(p1, k1), PipePiece::Middle(p2, k2)) => {
            let lo = if k1 <= k2 { k1 as int } else { k2 as int };
            let hi = if k1 <= k2 { k2 as int } else { k1 as int };
            if p1 != p2 || lo + 1 != hi {
                None
            } else {
                let pipe = pipes[p1 as int];
                Some(pipes.update(p1 as int, pipe.subrange(0, hi)).push(pipe.subrange(hi, pipe.len() as int)))
            }
        },
        (PipePiece::Middle(p1, k1), PipePiece::EmptyOrNode(n)) => toggled_at_middle(pipes, p1 as int, k1 as int, n, c2),
        (PipePiece::EmptyOrNode(n), PipePiece::Middle(p2, k2)) => toggled_at_middle(pipes, p2 as int, k2 as int, n, c1),
    }
}

impl PlaneModel {
    /// True if a wall stands on the cell.
    pub open spec fn wall_at(self, coords: Point) -> bool {
        self.objects.contains_key(coords) && self.objects[coords] == PlaneObj::Wall
    }

    /// True if the edge from `c1` to `c2` can be toggled at all: both cells
    /// lie in the grid, are neighbours, and neither is a wall.
    pub open spec fn edge_allowed(self, c1: Point, c2: Point) -> bool {
        &&& self.rect.spec_contains(c1)
        &&& self.rect.spec_contains(c2)
        &&& c1.adjacent(c2)
        &&& !self.wall_at(c1)
        &&& !self.wall_at(c2)
    }

    /// The pipes after the edge from `c1` to `c2` was toggled, or `None` where
    /// the edge is refused.
    pub open spec fn toggle(self, c1: Point, c2: Point) -> Option<Seq<Seq<Point>>> {
        if self.edge_allowed(c1, c2) {
            let vertical = c1.x == c2.x;
            toggled_pipes(
                self.pipes,
                piece_at(self.objects, self.pipes, c1, vertical),
                piece_at(self.objects, self.pipes, c2, vertical),
                c1,
                c2,
            )
        } else {
            None
        }
    }

    /// True if some pipe runs from one of the two cells to the other.
    pub open spec fn linked(self, a: Point, b: Point) -> bool {
        exists|i: int|
            0 <= i < self.pipes.len() && (((#[trigger] self.pipes[i]).first() == a
                && self.pipes[i].last() == b) || (self.pipes[i].first() == b
                && self.pipes[i].last() == a))
    }

    /// True if the two cells hold nodes that the puzzle wants joined: two
    /// different purple nodes, or a red and a blue one.
    pub open spec fn wants_link(self, a: Point, b: Point) -> bool {
        &&& self.objects.contains_key(a)
        &&& self.objects.contains_key(b)
        &&& {
            ||| a != b && self.objects[a] == PlaneObj::PurpleNode && self.objects[b]
                == PlaneObj::PurpleNode
            ||| self.objects[a] == PlaneObj::RedNode && self.objects[b] == PlaneObj::BlueNode
        }
    }

    /// True if every pair of nodes that the puzzle wants joined has a pipe of
    /// its own from one to the other.
    pub open spec fn all_connected(self) -> bool {
        forall|a: Point, b: Point| #[trigger] self.wants_link(a, b) ==> self.linked(a, b)
    }
}

/// Returns a copy of the points.
fn copy_points(v: &Vec<Point>) -> (r: Vec<Point>)
    ensures
        r@ == v@,
{
    let mut r: Vec<Point> = Vec::new();
    let mut i: usize = 0;
    while i < v.len()
        invariant
            i <= v@.len(),
            r@ == v@.subrange(0, i as int),
        decreases v@.len() - i,
    {
        r.push(v[i]);
        proof {
            assert(r@ =~= v@.subrange(0, i + 1));
        }
        i += 1;
    }
    proof {
        assert(r@ =~= v@);
    }
    r
}

/// Returns the points in the opposite order.
fn reversed_points(v: &Vec<Point>) -> (r: Vec<Point>)
    ensures
        r@ == v@.reverse(),
{
    let mut r: Vec<Point> = Vec::new();
    let n = v.len();
    let mut i: usize = 0;
    while i < n
        invariant
            n == v@.len(),
            i <= n,
            r@.len() == i,
            forall|j: int| 0 <= j < i ==> r@[j] == v@[n - 1 - j],
        decreases n - i,
    {
        r.push(v[n - 1 - i]);
        i += 1;
    }
    proof {
        assert(r@ =~= v@.reverse());
    }
    r
}

/// A grid of cells on which pipes are laid edge by edge between nodes.
pub struct PlaneGrid {
    rect: Rect,
    objects: PointMap<PlaneObj>,
    pipes: Vec<Vec<Point>>,
}

impl View for PlaneGrid {
    type V = PlaneModel;

    closed spec fn view(&self) -> PlaneModel {
        PlaneModel { rect: self.rect, objects: self.objects@, pipes: pipes_model(self.pipes@) }
    }
}

impl PlaneGrid {
    /// The invariant of the type: no cell holds two objects, and every pipe
    /// has at least two points.
    pub closed spec fn wf(&self) -> bool {
        &&& self.objects.wf()
        &&& pipes_ok(pipes_model(self.pipes@))
    }

    /// What the invariant says of the value: every pipe has at least two
    /// points.
    pub proof fn lemma_wf(&self)
        requires
            self.wf(),
        ensures
            pipes_ok(self@.pipes),
    {
    }

    /// Makes a grid over `rect` without objects or pipes.
    pub fn new(rect: Rect) -> (g: PlaneGrid)
        ensures
            g.wf(),
            g@.rect == rect,
            g@.objects == Map::<Point, PlaneObj>::empty(),
            g@.pipes == Seq::<Seq<Point>>::empty(),
            g@.tidy(),
    {
        let g = PlaneGrid { rect, objects: PointMap::new(), pipes: Vec::new() };
        proof {
            assert(pipes_model(g.pipes@) =~= Seq::<Seq<Point>>::empty());
        }
        g
    }

    /// The pipes and the points of each can be counted.
    pub proof fn lemma_countable(&self)
        ensures
            crate::plane::links::countable(self@.pipes),
    {
        assert(self.pipes@.len() == self.pipes.len());
        assert forall|p: int| 0 <= p < self@.pipes.len() implies (#[trigger] self@.pipes[p]).len()
            <= usize::MAX by {
            assert(self.pipes@[p]@.len() == self.pipes@[p].len());
        }
    }

    /// Returns the rectangle of cells that the grid covers.
    pub fn rect(&self) -> (r: Rect)
        ensures
            r == self@.rect,
    {
        self.rect
    }

    /// Returns the number of columns.
    pub fn width(&self) -> (r: u32)
        ensures
            r == self@.rect.width,
    {
        self.rect.width()
    }

    /// Returns the number of rows.
    pub fn height(&self) -> (r: u32)
        ensures
            r == self@.rect.height,
    {
        self.rect.height()
    }

    /// Returns the objects by cell.
    pub fn objects(&self) -> (r: &PointMap<PlaneObj>)
        ensures
            r@ == self@.objects,
            self.wf() ==> r.wf(),
    {
        &self.objects
    }

    /// Returns the pipes, each a list of points from its start to its end.
    pub fn pipes(&self) -> (r: &Vec<Vec<Point>>)
        ensures
            pipes_model(r@) == self@.pipes,
    {
        &self.pipes
    }

    /// Takes every pipe off the grid.
    pub fn remove_all_pipes(&mut self)
        requires
            old(self).wf(),
        ensures
            final(self).wf(),
            final(self)@.rect == old(self)@.rect,
            final(self)@.objects == old(self)@.objects,
            final(self)@.pipes == Seq::<Seq<Point>>::empty(),
            final(self)@.tidy(),
    {
        self.pipes.clear();
        proof {
            assert(pipes_model(self.pipes@) =~= Seq::<Seq<Point>>::empty());
        }
    }

    /// Puts `obj` on the cell in column `col` and row `row`, in place of any
    /// object there, and takes away every pipe that passes through that cell.
    pub fn place_object(&mut self, col: i32, row: i32, obj: PlaneObj)
        requires
            old(self).wf(),
            old(self)@.rect.spec_contains(Point { x: col, y: row }),
        ensures
            final(self).wf(),
            final(self)@.rect == old(self)@.rect,
            final(self)@.objects == old(self)@.objects.insert(Point { x: col, y: row }, obj),
            final(self)@.pipes == pipes_avoiding(old(self)@.pipes, Point { x: col, y: row }),
            old(self)@.tidy() ==> final(self)@.tidy(),
    {
        let pt = Point::new(col, row);
        let mut kept: Vec<Vec<Point>> = Vec::new();
        let mut i: usize = 0;
        while i < self.pipes.len()
            invariant
                i <= self.pipes@.len(),
                pipes_ok(pipes_model(self.pipes@)),
                pipes_ok(pipes_model(kept@)),
                pipes_model(kept@) == pipes_avoiding(pipes_model(self.pipes@).subrange(0, i as int), pt),
            decreases self.pipes@.len() - i,
        {
            let passes = contains_point(&self.pipes[i], pt);
            let ghost before = pipes_model(kept@);
            proof {
                let all = pipes_model(self.pipes@);
                assert(all.subrange(0, i + 1).drop_last() =~= all.subrange(0, i as int));
                assert(all.subrange(0, i + 1).last() == all[i as int]);
            }
            if !passes {
                let pipe = copy_points(&self.pipes[i]);
                kept.push(pipe);
                proof {
                    assert(pipes_model(kept@) =~= before.push(self.pipes@[i as int]@));
                    assert(pipes_model(self.pipes@)[i as int].len() >= 2);
                }
            }
            i += 1;
        }
        proof {
            assert(pipes_model(self.pipes@).subrange(0, i as int) =~= pipes_model(self.pipes@));
        }
        self.pipes = kept;
        self.objects.insert(pt, obj);
        proof {
            if old(self)@.tidy() {
                crate::plane::tidy::lemma_place_keeps_tidy(
                    old(self)@.objects,
                    old(self)@.pipes,
                    pt,
                    obj,
                );
            }
        }
    }

    /// Takes the object off the cell in column `col` and row `row`.
    pub fn remove_object(&mut self, col: i32, row: i32)
        requires
            old(self).wf(),
            old(self)@.objects.contains_key(Point { x: col, y: row }),
        ensures
            final(self).wf(),
            final(self)@.rect == old(self)@.rect,
            final(self)@.objects == old(self)@.objects.remove(Point { x: col, y: row }),
            final(self)@.pipes == old(self)@.pipes,
            old(self)@.tidy() && old(self)@.untouched(Point { x: col, y: row }) ==> final(self)@.tidy(),
    {
        let pt = Point::new(col, row);
        self.objects.remove(pt);
        proof {
            if old(self)@.tidy() && old(self)@.untouched(pt) {
                crate::plane::tidy::lemma_object_changed(
                    old(self)@.objects,
                    self@.objects,
                    self@.pipes,
                    pt,
                );
            }
        }
    }

    /// Returns how the cell `coords` meets the pipes, for an edge of the
    /// given orientation.
    pub fn pipe_piece_at(&self, coords: Point, is_vertical: bool) -> (r: PipePiece)
        requires
            self.wf(),
        ensures
            r == piece_at(self@.objects, self@.pipes, coords, is_vertical),
            piece_ok(self@.pipes, r, coords),
    {
        let obj = self.objects.get(coords);
        let is_cross = match obj {
            Some(o) => {
                if o.is_node() {
                    return PipePiece::EmptyOrNode(true);
                }
                o == PlaneObj::Cross
            },
            None => false,
        };
        let ghost pipes = pipes_model(self.pipes@);
        let ghost found = first_fit(pipes, 0, coords, is_cross, is_vertical);
        assert(piece_at(self@.objects, pipes, coords, is_vertical) == match found {
            Some((p, k)) => piece_kind(pipes[p].len() as int, p, k),
            None => PipePiece::EmptyOrNode(false),
        });
        let mut p: usize = 0;
        while p < self.pipes.len()
            invariant
                p <= self.pipes@.len(),
                pipes == pipes_model(self.pipes@),
                pipes == self@.pipes,
                pipes_ok(pipes),
                found == first_fit(pipes, 0, coords, is_cross, is_vertical),
                piece_at(self@.objects, pipes, coords, is_vertical) == match found {
                    Some((p, k)) => piece_kind(pipes[p].len() as int, p, k),
                    None => PipePiece::EmptyOrNode(false),
                },
                first_fit(pipes, 0, coords, is_cross, is_vertical) == first_fit(
                    pipes,
                    p as int,
                    coords,
                    is_cross,
                    is_vertical,
                ),
            decreases self.pipes@.len() - p,
        {
            let pipe = &self.pipes[p];
            assert(pipe@ == pipes[p as int]);
            assert(pipe@.len() >= 2);
            let mut k: usize = 0;
            while k < pipe.len()
                invariant
                    k <= pipe@.len(),
                    pipe@.len() >= 2,
                    p < pipes.len(),
                    pipe@ == pipes[p as int],
                    pipes == self@.pipes,
                    found == first_fit(pipes, p as int, coords, is_cross, is_vertical),
                    piece_at(self@.objects, pipes, coords, is_vertical) == match found {
                        Some((p, k)) => piece_kind(pipes[p].len() as int, p, k),
                        None => PipePiece::EmptyOrNode(false),
                    },
                    first_fit_in(pipe@, 0, coords, is_cross, is_vertical) == first_fit_in(
                        pipe@,
                        k as int,
                        coords,
                        is_cross,
                        is_vertical,
                    ),
                decreases pipe@.len() - k,
            {
                if pipe[k] == coords {
                    let k2 = if k == 0 { 1 } else { k - 1 };
                    if !is_cross || (pipe[k2].x == coords.x) == is_vertical {
                        return if k == 0 {
                            PipePiece::Start(p)
                        } else if k + 1 == pipe.len() {
                            PipePiece::End(p)
                        } else {
                            PipePiece::Middle(p, k)
                        };
                    }
                }
                k += 1;
            }
            p += 1;
        }
        PipePiece::EmptyOrNode(false)
    }

    /// Returns true if a wall stands on the cell.
    pub fn is_wall_at(&self, coords: Point) -> (r: bool)
        requires
            self.wf(),
        ensures
            r == self@.wall_at(coords),
    {
        match self.objects.get(coords) {
            Some(o) => o == PlaneObj::Wall,
            None => false,
        }
    }
}

impl PlaneGrid {
    /// The stored pipes are those of the model, one for one.
    proof fn lemma_view(&self)
        ensures
            self@.pipes.len() == self.pipes@.len(),
            forall|i: int| 0 <= i < self.pipes@.len() ==> (#[trigger] self.pipes@[i])@ == self@.pipes[i],
    {
    }

    /// Takes pipe `p` out; the last pipe moves to its place.
    fn take_pipe(&mut self, p: usize) -> (r: Vec<Point>)
        requires
            old(self).wf(),
            p < old(self)@.pipes.len(),
        ensures
            final(self).wf(),
            final(self)@.rect == old(self)@.rect,
            final(self)@.objects == old(self)@.objects,
            final(self)@.pipes == swap_removed(old(self)@.pipes, p as int),
            r@ == old(self)@.pipes[p as int],
    {
        let r = self.pipes.swap_remove(p);
        proof {
            assert(pipes_model(self.pipes@) =~= swap_removed(pipes_model(old(self).pipes@), p as int));
        }
        r
    }

    /// Puts `pipe` in the place of pipe `p`.
    fn set_pipe(&mut self, p: usize, pipe: Vec<Point>)
        requires
            old(self).wf(),
            p < old(self)@.pipes.len(),
            pipe@.len() >= 2,
        ensures
            final(self).wf(),
            final(self)@.rect == old(self)@.rect,
            final(self)@.objects == old(self)@.objects,
            final(self)@.pipes == old(self)@.pipes.update(p as int, pipe@),
    {
        self.pipes.set(p, pipe);
        proof {
            assert(pipes_model(self.pipes@) =~= pipes_model(old(self).pipes@).update(p as int, pipe@));
        }
    }

    /// Adds `pipe` behind the others.
    fn add_pipe(&mut self, pipe: Vec<Point>)
        requires
            old(self).wf(),
            pipe@.len() >= 2,
        ensures
            final(self).wf(),
            final(self)@.rect == old(self)@.rect,
            final(self)@.objects == old(self)@.objects,
            final(self)@.pipes == old(self)@.pipes.push(pipe@),
    {
        self.pipes.push(pipe);
        proof {
            assert(pipes_model(self.pipes@) =~= pipes_model(old(self).pipes@).push(pipe@));
        }
    }

    /// Returns the index of the first pipe that consists of the two points.
    fn find_joining(&self, a: Point, b: Point) -> (r: Option<usize>)
        requires
            self.wf(),
        ensures
            r is Some ==> r->0 < self@.pipes.len(),
            first_joining(self@.pipes, 0, a, b) == (match r {
                Some(p) => Some(p as int),
                None => None,
            }),
    {
        let ghost pipes = pipes_model(self.pipes@);
        let mut p: usize = 0;
        while p < self.pipes.len()
            invariant
                p <= self.pipes@.len(),
                pipes == pipes_model(self.pipes@),
                first_joining(pipes, 0, a, b) == first_joining(pipes, p as int, a, b),
            decreases self.pipes@.len() - p,
        {
            let pipe = &self.pipes[p];
            assert(pipe@ == pipes[p as int]);
            if pipe.len() == 2 && ((pipe[0] == a && pipe[1] == b) || (pipe[0] == b && pipe[1]
                == a)) {
                return Some(p);
            }
            p += 1;
        }
        None
    }

    /// Toggles the edge at the first point of pipe `p`.
    fn toggle_at_start(&mut self, p: usize, node: bool, c: Point)
        requires
            old(self).wf(),
            p < old(self)@.pipes.len(),
        ensures
            final(self).wf(),
            final(self)@.rect == old(self)@.rect,
            final(self)@.objects == old(self)@.objects,
            final(self)@.pipes == toggled_at_start(old(self)@.pipes, p as int, node, c),
    {
        assert(self@.pipes[p as int].len() >= 2);
        assert(self.pipes@[p as int]@ == self@.pipes[p as int]);
        if node && self.pipes[p][1] == c {
            self.take_pipe(p);
        } else {
            let mut pipe = copy_points(&self.pipes[p]);
            pipe.insert(0, c);
            self.set_pipe(p, pipe);
        }
    }

    /// Toggles the edge at the last point of pipe `p`.
    fn toggle_at_end(&mut self, p: usize, node: bool, c: Point)
        requires
            old(self).wf(),
            p < old(self)@.pipes.len(),
        ensures
            final(self).wf(),
            final(self)@.rect == old(self)@.rect,
            final(self)@.objects == old(self)@.objects,
            final(self)@.pipes == toggled_at_end(old(self)@.pipes, p as int, node, c),
    {
        assert(self@.pipes[p as int].len() >= 2);
        assert(self.pipes@[p as int]@ == self@.pipes[p as int]);
        if node && self.pipes[p].len() == 2 && self.pipes[p][0] == c {
            self.take_pipe(p);
        } else {
            let mut pipe = copy_points(&self.pipes[p]);
            pipe.push(c);
            self.set_pipe(p, pipe);
        }
    }

    /// Toggles the edge at the inner point `k` of pipe `p`.
    fn toggle_at_middle(&mut self, p: usize, k: usize, node: bool, c: Point) -> (done: bool)
        requires
            old(self).wf(),
            p < old(self)@.pipes.len(),
            0 < k,
            k + 1 < old(self)@.pipes[p as int].len(),
        ensures
            final(self).wf(),
            final(self)@.rect == old(self)@.rect,
            final(self)@.objects == old(self)@.objects,
            match toggled_at_middle(old(self)@.pipes, p as int, k as int, node, c) {
                Some(pipes) => done && final(self)@.pipes == pipes,
                None => !done && final(self)@.pipes == old(self)@.pipes,
            },
    {
        assert(self.pipes@[p as int]@ == self@.pipes[p as int]);
        if node && k == 1 && self.pipes[p][0] == c {
            let mut pipe = copy_points(&self.pipes[p]);
            pipe.remove(0);
            self.set_pipe(p, pipe);
            true
        } else if node && k == self.pipes[p].len() - 2 && self.pipes[p][k + 1] == c {
            let mut pipe = copy_points(&self.pipes[p]);
            pipe.pop();
            self.set_pipe(p, pipe);
            true
        } else {
            false
        }
    }

    /// Joins the end of pipe `e` to the start of pipe `s`.
    fn toggle_end_start(&mut self, e: usize, s: usize) -> (done: bool)
        requires
            old(self).wf(),
            e < old(self)@.pipes.len(),
            s < old(self)@.pipes.len(),
        ensures
            final(self).wf(),
            final(self)@.rect == old(self)@.rect,
            final(self)@.objects == old(self)@.objects,
            match toggled_end_start(old(self)@.pipes, e as int, s as int) {
                Some(pipes) => done && final(self)@.pipes == pipes,
                None => !done && final(self)@.pipes == old(self)@.pipes,
            },
    {
        assert(self.pipes@[e as int]@ == self@.pipes[e as int]);
        assert(self@.pipes[e as int].len() >= 2);
        assert(self@.pipes[s as int].len() >= 2);
        if e == s {
            if self.pipes[e].len() == 2 {
                self.take_pipe(e);
                true
            } else {
                false
            }
        } else if e < s {
            let mut tail = self.take_pipe(s);
            proof {
                self.lemma_view();
            }
            let mut pipe = copy_points(&self.pipes[e]);
            pipe.append(&mut tail);
            self.set_pipe(e, pipe);
            true
        } else {
            let mut pipe = self.take_pipe(e);
            let mut tail = self.take_pipe(s);
            pipe.append(&mut tail);
            self.add_pipe(pipe);
            true
        }
    }

    /// Joins the starts of two different pipes (`at_start`), or their ends.
    fn toggle_same_ends(&mut self, p1: usize, p2: usize, at_start: bool)
        requires
            old(self).wf(),
            p1 < old(self)@.pipes.len(),
            p2 < old(self)@.pipes.len(),
            p1 != p2,
        ensures
            final(self).wf(),
            final(self)@.rect == old(self)@.rect,
            final(self)@.objects == old(self)@.objects,
            final(self)@.pipes == ({
                let pipes = old(self)@.pipes;
                let lo = if p1 <= p2 { p1 as int } else { p2 as int };
                let hi = if p1 <= p2 { p2 as int } else { p1 as int };
                if at_start {
                    swap_removed(pipes, hi).update(lo, pipes[lo].reverse() + pipes[hi])
                } else {
                    swap_removed(pipes, hi).update(lo, pipes[lo] + pipes[hi].reverse())
                }
            }),
    {
        let lo = if p1 <= p2 { p1 } else { p2 };
        let hi = if p1 <= p2 { p2 } else { p1 };
        assert(self@.pipes[lo as int].len() >= 2);
        assert(self@.pipes[hi as int].len() >= 2);
        let mut second = self.take_pipe(hi);
        proof {
            self.lemma_view();
        }
        if at_start {
            let mut pipe = reversed_points(&self.pipes[lo]);
            pipe.append(&mut second);
            self.set_pipe(lo, pipe);
        } else {
            let mut pipe = copy_points(&self.pipes[lo]);
            let mut back = reversed_points(&second);
            pipe.append(&mut back);
            self.set_pipe(lo, pipe);
        }
    }

    /// Cuts pipe `p` in two between its inner points `k1` and `k2`.
    fn toggle_middles(&mut self, p1: usize, k1: usize, p2: usize, k2: usize) -> (done: bool)
        requires
            old(self).wf(),
            p1 < old(self)@.pipes.len(),
            0 < k1,
            k1 + 1 < old(self)@.pipes[p1 as int].len(),
            p2 < old(self)@.pipes.len(),
            0 < k2,
            k2 + 1 < old(self)@.pipes[p2 as int].len(),
        ensures
            final(self).wf(),
            final(self)@.rect == old(self)@.rect,
            final(self)@.objects == old(self)@.objects,
            match toggled_pipes(
                old(self)@.pipes,
                PipePiece::Middle(p1, k1),
                PipePiece::Middle(p2, k2),
                Point { x: 0, y: 0 },
                Point { x: 0, y: 0 },
            ) {
                Some(pipes) => done && final(self)@.pipes == pipes,
                None => !done && final(self)@.pipes == old(self)@.pipes,
            },
    {
        if p1 != p2 {
            return false;
        }
        let lo = if k1 <= k2 { k1 } else { k2 };
        let hi = if k1 <= k2 { k2 } else { k1 };
        if hi - lo != 1 {
            return false;
        }
        assert(self.pipes@[p1 as int]@ == self@.pipes[p1 as int]);
        let mut pipe = copy_points(&self.pipes[p1]);
        let tail = pipe.split_off(hi);
        self.set_pipe(p1, pipe);
        self.add_pipe(tail);
        true
    }

    /// Toggles the edge from `c1` to `c2`, given how each end meets the pipes.
    fn toggle_pieces(&mut self, piece1: PipePiece, piece2: PipePiece, c1: Point, c2: Point) -> (done: bool)
        requires
            old(self).wf(),
            c1 != c2,
            piece_ok(old(self)@.pipes, piece1, c1),
            piece_ok(old(self)@.pipes, piece2, c2),
        ensures
            final(self).wf(),
            final(self)@.rect == old(self)@.rect,
            final(self)@.objects == old(self)@.objects,
            match toggled_pipes(old(self)@.pipes, piece1, piece2, c1, c2) {
                Some(pipes) => done && final(self)@.pipes == pipes,
                None => !done && final(self)@.pipes == old(self)@.pipes,
            },
    {
        match (piece1, piece2) {
            (PipePiece::EmptyOrNode(n1), PipePiece::EmptyOrNode(n2)) => {
                let direct = self.find_joining(c1, c2);
                if n1 && n2 && direct.is_some() {
                    self.take_pipe(direct.unwrap());
                } else {
                    let mut pipe: Vec<Point> = Vec::new();
                    pipe.push(c1);
                    pipe.push(c2);
                    assert(pipe@ =~= seq![c1, c2]);
                    self.add_pipe(pipe);
                }
                true
            },
            (PipePiece::EmptyOrNode(n), PipePiece::Start(p2)) => {
                self.toggle_at_start(p2, n, c1);
                true
            },
            (PipePiece::EmptyOrNode(n), PipePiece::End(p2)) => {
                self.toggle_at_end(p2, n, c1);
                true
            },
            (PipePiece::Start(p1), PipePiece::EmptyOrNode(n)) => {
                self.toggle_at_start(p1, n, c2);
                true
            },
            (PipePiece::End(p1), PipePiece::EmptyOrNode(n)) => {
                self.toggle_at_end(p1, n, c2);
                true
            },
            (PipePiece::Start(p1), PipePiece::Start(p2)) => {
                self.toggle_same_ends(p1, p2, true);
                true
            },
            (PipePiece::End(p1), PipePiece::End(p2)) => {
                assert(self@.pipes[p1 as int].len() >= 2);
                self.toggle_same_ends(p1, p2, false);
                true
            },
            (PipePiece::End(e), PipePiece::Start(s)) => self.toggle_end_start(e, s),
            (PipePiece::Start(s), PipePiece::End(e)) => self.toggle_end_start(e, s),
            (PipePiece::Start(p), PipePiece::Middle(q, k)) => self.toggle_start_middle(p, q, k),
            (PipePiece::Middle(q, k), PipePiece::Start(p)) => self.toggle_start_middle(p, q, k),
            (PipePiece::Middle(q, k), PipePiece::End(p)) => self.toggle_middle_end(q, k, p),
            (PipePiece::End(p), PipePiece::Middle(q, k)) => self.toggle_middle_end(q, k, p),
            (PipePiece::Middle(p1, k1), PipePiece::Middle(p2, k2)) => self.toggle_middles(
                p1,
                k1,
                p2,
                k2,
            ),
            (PipePiece::Middle(p1, k1), PipePiece::EmptyOrNode(n)) => self.toggle_at_middle(
                p1,
                k1,
                n,
                c2,
            ),
            (PipePiece::EmptyOrNode(n), PipePiece::Middle(p2, k2)) => self.toggle_at_middle(
                p2,
                k2,
                n,
                c1,
            ),
        }
    }

    /// Takes the first point off pipe `p` if the inner point is the second
    /// point of that same pipe.
    fn toggle_start_middle(&mut self, p: usize, q: usize, k: usize) -> (done: bool)
        requires
            old(self).wf(),
            p < old(self)@.pipes.len(),
            q < old(self)@.pipes.len(),
            0 < k,
            k + 1 < old(self)@.pipes[q as int].len(),
        ensures
            final(self).wf(),
            final(self)@.rect == old(self)@.rect,
            final(self)@.objects == old(self)@.objects,
            done == (p == q && k == 1),
            final(self)@.pipes == (if done {
                old(self)@.pipes.update(p as int, old(self)@.pipes[p as int].remove(0))
            } else {
                old(self)@.pipes
            }),
    {
        if p == q && k == 1 {
            assert(self.pipes@[p as int]@ == self@.pipes[p as int]);
            let mut pipe = copy_points(&self.pipes[p]);
            pipe.remove(0);
            self.set_pipe(p, pipe);
            true
        } else {
            false
        }
    }

    /// Takes the last point off pipe `p` if the inner point is the point
    /// before it in that same pipe.
    fn toggle_middle_end(&mut self, q: usize, k: usize, p: usize) -> (done: bool)
        requires
            old(self).wf(),
            p < old(self)@.pipes.len(),
            q < old(self)@.pipes.len(),
            0 < k,
            k + 1 < old(self)@.pipes[q as int].len(),
        ensures
            final(self).wf(),
            final(self)@.rect == old(self)@.rect,
            final(self)@.objects == old(self)@.objects,
            done == (p == q && k + 2 == old(self)@.pipes[p as int].len()),
            final(self)@.pipes == (if done {
                old(self)@.pipes.update(p as int, old(self)@.pipes[p as int].drop_last())
            } else {
                old(self)@.pipes
            }),
    {
        assert(self.pipes@[p as int]@ == self@.pipes[p as int]);
        assert(self@.pipes[p as int].len() >= 2);
        if p == q && k == self.pipes[p].len() - 2 {
            let mut pipe = copy_points(&self.pipes[p]);
            pipe.pop();
            self.set_pipe(p, pipe);
            true
        } else {
            false
        }
    }

    /// Toggles the edge between the neighbouring cells `coords1` and
    /// `coords2`: lays it where it is missing, takes it up where it lies.
    /// Returns false, and changes nothing, where the edge is refused: a cell
    /// outside the grid, cells that are no neighbours, a wall, or pipes that
    /// meet the two cells in a way that admits no edge there.
    pub fn toggle_pipe(&mut self, coords1: Point, coords2: Point) -> (done: bool)
        requires
            old(self).wf(),
        ensures
            final(self).wf(),
            final(self)@.rect == old(self)@.rect,
            final(self)@.objects == old(self)@.objects,
            match old(self)@.toggle(coords1, coords2) {
                Some(pipes) => done && final(self)@.pipes == pipes,
                None => !done && final(self)@.pipes == old(self)@.pipes,
            },
            final(self)@ == old(self)@.toggled(coords1, coords2),
            old(self)@.tidy() ==> final(self)@.tidy(),
    {
        proof {
            if self@.tidy() {
                self.lemma_countable();
                crate::plane::tidy::lemma_toggle_keeps_tidy(self@, coords1, coords2);
            }
        }
        if !self.rect.contains(coords1) || !self.rect.contains(coords2) {
            return false;
        }
        let dx: i64 = coords2.x as i64 - coords1.x as i64;
        let dy: i64 = coords2.y as i64 - coords1.y as i64;
        if !((dx == 0 && (dy == 1 || dy == -1)) || (dy == 0 && (dx == 1 || dx == -1))) {
            return false;
        }
        if self.is_wall_at(coords1) || self.is_wall_at(coords2) {
            return false;
        }
        let is_vertical = dx == 0;
        let piece1 = self.pipe_piece_at(coords1, is_vertical);
        let piece2 = self.pipe_piece_at(coords2, is_vertical);
        self.toggle_pieces(piece1, piece2, coords1, coords2)
    }

    /// Returns true if some pipe runs from one of the two cells to the other.
    fn is_linked(&self, a: Point, b: Point) -> (r: bool)
        requires
            self.wf(),
        ensures
            r == self@.linked(a, b),
    {
        let ghost pipes = pipes_model(self.pipes@);
        let mut p: usize = 0;
        while p < self.pipes.len()
            invariant
                p <= self.pipes@.len(),
                pipes == pipes_model(self.pipes@),
                pipes == self@.pipes,
                pipes_ok(pipes),
                forall|i: int|
                    0 <= i < p ==> !(((#[trigger] pipes[i]).first() == a && pipes[i].last() == b)
                        || (pipes[i].first() == b && pipes[i].last() == a)),
            decreases self.pipes@.len() - p,
        {
            let pipe = &self.pipes[p];
            assert(pipe@ == pipes[p as int]);
            assert(pipe@.len() >= 2);
            let start = pipe[0];
            let end = pipe[pipe.len() - 1];
            if (start == a && end == b) || (start == b && end == a) {
                return true;
            }
            p += 1;
        }
        false
    }

    /// Returns true if every pair of nodes that the puzzle wants joined has a
    /// pipe of its own: each two purple nodes, and each red node with each
    /// blue node. A pipe joins two nodes if they are its two end points.
    pub fn all_nodes_are_connected(&self) -> (r: bool)
        requires
            self.wf(),
        ensures
            r == self@.all_connected(),
    {
        let n = self.objects.len();
        proof {
            self.objects.lemma_pairs();
        }
        let mut i: usize = 0;
        while i < n
            invariant
                self.wf(),
                n == self.objects.pairs().len(),
                i <= n,
                forall|a: int, b: int|
                    0 <= a < i && 0 <= b < n && #[trigger] self@.wants_link(
                        self.objects.pairs()[a].0,
                        self.objects.pairs()[b].0,
                    ) ==> self@.linked(self.objects.pairs()[a].0, self.objects.pairs()[b].0),
            decreases n - i,
        {
            let (a, kind_a) = self.objects.pair(i);
            let mut j: usize = 0;
            while j < n
                invariant
                    self.wf(),
                    n == self.objects.pairs().len(),
                    i < n,
                    j <= n,
                    (a, kind_a) == self.objects.pairs()[i as int],
                    forall|b: int|
                        0 <= b < j && #[trigger] self@.wants_link(a, self.objects.pairs()[b].0)
                            ==> self@.linked(a, self.objects.pairs()[b].0),
                decreases n - j,
            {
                let (b, kind_b) = self.objects.pair(j);
                proof {
                    self.objects.lemma_pairs();
                }
                let wanted = (i != j && kind_a == PlaneObj::PurpleNode && kind_b
                    == PlaneObj::PurpleNode) || (kind_a == PlaneObj::RedNode && kind_b
                    == PlaneObj::BlueNode);
                assert(wanted == self@.wants_link(a, b)) by {
                    if i != j {
                        if i < j {
                            assert(self.objects.pairs()[i as int].0 != self.objects.pairs()[j as int].0);
                        } else {
                            assert(self.objects.pairs()[j as int].0 != self.objects.pairs()[i as int].0);
                        }
                    }
                }
                if wanted && !self.is_linked(a, b) {
                    return false;
                }
                j += 1;
            }
            i += 1;
        }
        proof {
            self.objects.lemma_pairs();
            assert forall|a: Point, b: Point| #[trigger] self@.wants_link(a, b) implies self@.linked(a, b) by {
                let ia = choose|ia: int| 0 <= ia < n && (#[trigger] self.objects.pairs()[ia]).0 == a;
                let ib = choose|ib: int| 0 <= ib < n && (#[trigger] self.objects.pairs()[ib]).0 == b;
                assert(self@.wants_link(self.objects.pairs()[ia].0, self.objects.pairs()[ib].0));
            }
        }
        true
    }
}

/// Returns true if `pt` is one of the points.
fn contains_point(v: &Vec<Point>, pt: Point) -> (r: bool)
    ensures
        r == v@.contains(pt),
{
    let mut i: usize = 0;
    while i < v.len()
        invariant
            i <= v@.len(),
            forall|j: int| 0 <= j < i ==> v@[j] != pt,
        decreases v@.len() - i,
    {
        if v[i] == pt {
            return true;
        }
        i += 1;
    }
    false
}

/// The list that saves one point: its column, then its row.
pub open spec fn point_saved(p: Point) -> Saved {
    Saved::Array(seq![Saved::Integer(p.x as int), Saved::Integer(p.y as int)])
}

/// The list that saves one pipe: its points from start to end.
pub open spec fn pipe_saved(pipe: Seq<Point>) -> Saved {
    Saved::Array(Seq::new(pipe.len(), |k: int| point_saved(pipe[k])))
}

/// The list that saves the pipes, one after the other.
pub open spec fn pipes_saved(pipes: Seq<Seq<Point>>) -> Saved {
    Saved::Array(Seq::new(pipes.len(), |i: int| pipe_saved(pipes[i])))
}

/// The point that a saved value stands for: the first two integers of a
/// list; column 0 of row 0 for a value that is no list of two or more.
pub open spec fn point_read(m: Saved) -> Point {
    let a = spec_to_array(m);
    if a.len() < 2 {
        Point { x: 0, y: 0 }
    } else {
        Point { x: spec_to_i32(a[0]) as i32, y: spec_to_i32(a[1]) as i32 }
    }
}

impl PlaneModel {
    /// The grid after the edge from `a` to `b` was toggled; unchanged where
    /// the edge is refused.
    pub open spec fn toggled(self, a: Point, b: Point) -> PlaneModel {
        match self.toggle(a, b) {
            Some(pipes) => PlaneModel { pipes, ..self },
            None => self,
        }
    }

    /// The grid after the edges between each of the first `n` saved points
    /// and the one before it were toggled in turn.
    pub open spec fn traced(self, points: Seq<Saved>, n: int) -> PlaneModel
        decreases n,
    {
        if n < 2 || n > points.len() {
            self
        } else {
            self.traced(points, n - 1).toggled(point_read(points[n - 2]), point_read(points[n - 1]))
        }
    }

    /// The grid after each of the saved pipes was traced in turn.
    pub open spec fn retraced(self, pipes: Seq<Saved>) -> PlaneModel
        decreases pipes.len(),
    {
        if pipes.len() == 0 {
            self
        } else {
            let points = spec_to_array(pipes.last());
            self.retraced(pipes.drop_last()).traced(points, points.len() as int)
        }
    }
}

/// Returns the point that `value` stands for.
pub fn point_from_toml(value: &toml::Value) -> (p: Point)
    ensures
        p == point_read(value_model(*value)),
{
    match value_as_array(value) {
        Some(a) => {
            if a.len() < 2 {
                Point::new(0, 0)
            } else {
                let x = to_i32(&a[0]);
                let y = to_i32(&a[1]);
                assert(values_model(a@)[0] == value_model(a@[0]));
                assert(values_model(a@)[1] == value_model(a@[1]));
                Point::new(x, y)
            }
        },
        None => Point::new(0, 0),
    }
}

impl PlaneGrid {
    /// Returns the value that saves the pipes: a list with one list for each
    /// pipe, which holds one list of column and row for each point.
    #[verifier::loop_isolation(false)]
    pub fn pipes_to_toml(&self) -> (v: toml::Value)
        ensures
            value_model(v) == pipes_saved(self@.pipes),
    {
        let mut pipes_toml: Vec<toml::Value> = Vec::new();
        let ghost pipes = self@.pipes;
        let mut i: usize = 0;
        while i < self.pipes.len()
            invariant
                i <= self.pipes@.len(),
                values_model(pipes_toml@) == Seq::new(i as nat, |k: int| pipe_saved(pipes[k])),
            decreases self.pipes@.len() - i,
        {
            let pipe = &self.pipes[i];
            assert(pipe@ == pipes[i as int]);
            let mut pipe_toml: Vec<toml::Value> = Vec::new();
            let mut k: usize = 0;
            while k < pipe.len()
                invariant
                    k <= pipe@.len(),
                    values_model(pipe_toml@) == Seq::new(k as nat, |j: int| point_saved(pipe@[j])),
                decreases pipe@.len() - k,
            {
                let coords = pipe[k];
                let mut coords_toml: Vec<toml::Value> = Vec::new();
                let x = integer_value(coords.x as i64);
                let y = integer_value(coords.y as i64);
                coords_toml.push(x);
                coords_toml.push(y);
                proof {
                    assert(values_model(coords_toml@) =~= seq![
                        Saved::Integer(coords.x as int),
                        Saved::Integer(coords.y as int),
                    ]);
                }
                let ghost before = pipe_toml@;
                let saved = array_value(coords_toml);
                pipe_toml.push(saved);
                proof {
                    lemma_values_push(before, saved);
                    assert(values_model(pipe_toml@) =~= Seq::new(
                        (k + 1) as nat,
                        |j: int| point_saved(pipe@[j]),
                    ));
                }
                k += 1;
            }
            let ghost before = pipes_toml@;
            let saved = array_value(pipe_toml);
            pipes_toml.push(saved);
            proof {
                lemma_values_push(before, saved);
                assert(Seq::new(pipe@.len(), |j: int| point_saved(pipe@[j])) =~= Seq::new(
                    pipes[i as int].len(),
                    |j: int| point_saved(pipes[i as int][j]),
                ));
                assert(values_model(pipes_toml@) =~= Seq::new(
                    (i + 1) as nat,
                    |k: int| pipe_saved(pipes[k]),
                ));
            }
            i += 1;
        }
        proof {
            assert(Seq::new(self.pipes@.len() as nat, |k: int| pipe_saved(pipes[k])) =~= Seq::new(
                pipes.len(),
                |k: int| pipe_saved(pipes[k]),
            ));
        }
        array_value(pipes_toml)
    }

    /// Takes every pipe off the grid and then traces the saved pipes: for
    /// each of them the edges from point to point are toggled in turn, as far
    /// as the grid accepts them.
    #[verifier::loop_isolation(false)]
    pub fn set_pipes_from_toml(&mut self, pipes: Vec<toml::Value>)
        requires
            old(self).wf(),
        ensures
            final(self).wf(),
            final(self)@ == (PlaneModel { pipes: Seq::empty(), ..old(self)@ }).retraced(
                values_model(pipes@),
            ),
            final(self)@.tidy(),
    {
        self.remove_all_pipes();
        let ghost start = self@;
        let ghost saved = values_model(pipes@);
        let mut i: usize = 0;
        proof {
            assert(saved.subrange(0, 0) =~= Seq::<Saved>::empty());
        }
        while i < pipes.len()
            invariant
                i <= pipes@.len(),
                self.wf(),
                self@.tidy(),
                self@ == start.retraced(saved.subrange(0, i as int)),
            decreases pipes@.len() - i,
        {
            let ghost before = self@;
            let ghost points = spec_to_array(saved[i as int]);
            proof {
                assert(saved.subrange(0, i + 1).drop_last() =~= saved.subrange(0, i as int));
                assert(saved[i as int] == value_model(pipes@[i as int]));
            }
            match value_as_array(&pipes[i]) {
                Some(pipe) => {
                    if pipe.len() > 0 {
                        let mut p1 = point_from_toml(&pipe[0]);
                        let mut k: usize = 1;
                        while k < pipe.len()
                            invariant
                                1 <= k <= pipe@.len(),
                                self.wf(),
                                self@.tidy(),
                                values_model(pipe@) == points,
                                p1 == point_read(points[k - 1]),
                                self@ == before.traced(points, k as int),
                            decreases pipe@.len() - k,
                        {
                            let p2 = point_from_toml(&pipe[k]);
                            assert(points[k as int] == value_model(pipe@[k as int]));
                            self.toggle_pipe(p1, p2);
                            p1 = p2;
                            k += 1;
                        }
                    }
                },
                None => {},
            }
            proof {
                assert(self@ == before.traced(points, points.len() as int));
            }
            i += 1;
        }
        proof {
            assert(saved.subrange(0, pipes@.len() as int) =~= saved);
        }
    }
}

} // verus!
