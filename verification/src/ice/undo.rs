use crate::direction::Direction;
use crate::ice::grid::{
    along, gate_move, gate_returned, gate_target, in_bounds, lemma_gate_target_is_free, room, slide_run, slide_step,
    GridModel, Object, SlideState,
};
use crate::ice::symbol::{lemma_transformed_back, Symbol};
use crate::ice::transform::Transform;
use crate::point::Point;
use vstd::prelude::*;

verus! {

/// The cell `k` steps from `p` in direction `dir`.
pub open spec fn ahead(p: Point, dir: Direction, k: int) -> Point {
    match dir {
        Direction::East => Point { x: (p.x + k) as i32, y: p.y },
        Direction::West => Point { x: (p.x - k) as i32, y: p.y },
        Direction::South => Point { x: p.x, y: (p.y + k) as i32 },
        Direction::North => Point { x: p.x, y: (p.y - k) as i32 },
    }
}

/// How many cells with objects lie between `p` and the first cell without
/// one, `p` counted.
pub open spec fn gate_steps(objects: Map<Point, Object>, p: Point, dir: Direction) -> int
    decreases room(p, dir),
{
    if !objects.contains_key(p) || !p.can_step(dir) {
        0
    } else {
        1 + gate_steps(objects, p.step(dir), dir)
    }
}

/// The cell that `gate_target` finds lies `gate_steps` steps ahead, and
/// every cell before it holds an object.
pub proof fn lemma_gate_target_run(objects: Map<Point, Object>, p: Point, dir: Direction)
    ensures
        0 <= gate_steps(objects, p, dir) <= room(p, dir),
        gate_target(objects, p, dir) is Some ==> gate_target(objects, p, dir)->0 == ahead(
            p,
            dir,
            gate_steps(objects, p, dir),
        ),
        gate_target(objects, p, dir) is Some ==> forall|j: int|
            0 <= j < gate_steps(objects, p, dir) ==> objects.contains_key(#[trigger] ahead(p, dir, j)),
    decreases room(p, dir),
{
    if objects.contains_key(p) && p.can_step(dir) {
        let q = p.step(dir);
        lemma_gate_target_run(objects, q, dir);
        let n = gate_steps(objects, q, dir);
        if gate_target(objects, p, dir) is Some {
            assert(ahead(q, dir, n) == ahead(p, dir, n + 1));
            assert forall|j: int| 0 <= j < n + 1 implies objects.contains_key(#[trigger] ahead(p, dir, j)) by {
                if j == 0 {
                    assert(ahead(p, dir, 0) == p);
                } else {
                    assert(ahead(q, dir, j - 1) == ahead(p, dir, j));
                }
            }
        }
    } else {
        assert(ahead(p, dir, 0) == p);
    }
}

/// Where `k` cells with objects lie ahead of a cell without one, the search
/// back from the last of them ends on that cell.
pub proof fn lemma_search_back(objects: Map<Point, Object>, g: Point, dir: Direction, k: int)
    requires
        0 <= k <= room(g, dir),
        !objects.contains_key(g),
        forall|j: int| 1 <= j <= k ==> objects.contains_key(#[trigger] ahead(g, dir, j)),
    ensures
        gate_target(objects, ahead(g, dir, k), dir.spec_opposite()) == Some(g),
    decreases k,
{
    let back = dir.spec_opposite();
    let q = ahead(g, dir, k);
    if k == 0 {
        assert(q == g);
    } else {
        assert(objects.contains_key(q));
        assert(q.can_step(back));
        assert(q.step(back) == ahead(g, dir, k - 1));
        lemma_search_back(objects, g, dir, k - 1);
    }
}

/// True if `after` is what becomes of `before` when a block that slides in
/// direction `dir` over a grid of `cols` columns and `rows` rows pushes the
/// push-pop on `gate`, and `pushed` is where that gate comes to rest.
pub open spec fn one_push(
    cols: int,
    rows: int,
    before: Map<Point, Object>,
    ice: Map<Point, Symbol>,
    gate: Point,
    dir: Direction,
    after: Map<Point, Object>,
    pushed: Option<Point>,
) -> bool {
    &&& before.contains_key(gate)
    &&& before[gate] == Object::PushPop(dir.spec_opposite())
    &&& gate_move(cols, rows, before, ice, gate, dir) is Some
    &&& pushed == gate_move(cols, rows, before, ice, gate, dir)
    &&& after == before.remove(gate).insert(pushed->0, Object::PushPop(dir))
}

/// True if a wall or a gap is on the cell.
pub open spec fn blocked(objects: Map<Point, Object>, p: Point) -> bool {
    objects.contains_key(p) && objects[p].blocks_cell()
}

/// What a slide does and does not do: the block moves ahead or not at
/// all; it comes to rest on the grid, on a cell without another block; its
/// transform stays valid; walls and gaps stay where they are; without a
/// push the objects stay as they were; and with one push one gate has
/// moved.
pub proof fn lemma_slide_run(cols: int, rows: int, ice: Map<Point, Symbol>, st: SlideState, dir: Direction)
    requires
        st.transform.wf(),
    ensures
        ({
            let end = slide_run(cols, rows, ice, st, dir);
            &&& end.transform.wf()
            &&& end.pushes >= st.pushes
            &&& along(end.pos, dir) >= along(st.pos, dir)
            &&& end.pos == st.pos ==> end == st
            &&& end.pos != st.pos ==> !ice.contains_key(end.pos) && in_bounds(cols, rows, end.pos)
            &&& forall|p: Point| blocked(end.objects, p) == blocked(st.objects, p)
            &&& end.pushes == st.pushes ==> end.objects == st.objects && end.pushed == st.pushed
            &&& end.pushes == st.pushes + 1 ==> exists|gate: Point| #[trigger]
                one_push(cols, rows, st.objects, ice, gate, dir, end.objects, end.pushed)
        }),
    decreases crate::ice::grid::span(cols, rows, st.pos, dir),
{
    let end = slide_run(cols, rows, ice, st, dir);
    match slide_step(cols, rows, ice, st, dir) {
        Some(next) => {
            crate::ice::transform::lemma_compose_group(st.transform, st.transform, st.transform);
            assert(next.transform.wf()) by {
                broadcast use Transform::lemma_make;

                st.transform.lemma_cases();
            }
            lemma_slide_run(cols, rows, ice, next, dir);
            assert(along(next.pos, dir) == along(st.pos, dir) + 1);
            assert forall|p: Point| blocked(end.objects, p) == blocked(st.objects, p) by {
                assert(blocked(end.objects, p) == blocked(next.objects, p));
                if next.pushes != st.pushes {
                    lemma_gate_target_is_free(st.objects, next.pos.step(dir), dir);
                }
            }
            if end.pushes == st.pushes + 1 {
                if next.pushes == st.pushes {
                    let gate = choose|gate: Point| #[trigger]
                        one_push(cols, rows, next.objects, ice, gate, dir, end.objects, end.pushed);
                    assert(one_push(cols, rows, st.objects, ice, gate, dir, end.objects, end.pushed));
                } else {
                    assert(one_push(
                        cols,
                        rows,
                        st.objects,
                        ice,
                        next.pos,
                        dir,
                        end.objects,
                        end.pushed,
                    ));
                }
            }
        },
        None => {},
    }
}

/// A gate that was pushed returns to its old cell, pointing as before,
/// when it goes back.
pub proof fn lemma_gate_returns(
    cols: int,
    rows: int,
    before: Map<Point, Object>,
    ice: Map<Point, Symbol>,
    gate: Point,
    dir: Direction,
    after: Map<Point, Object>,
    pushed: Option<Point>,
)
    requires
        one_push(cols, rows, before, ice, gate, dir, after, pushed),
        in_bounds(cols, rows, gate),
    ensures
        pushed is Some,
        pushed->0 != gate,
        in_bounds(cols, rows, pushed->0),
        !before.contains_key(pushed->0),
        gate_returned(cols, rows, after, pushed->0) == before,
{
    let first = gate.step(dir);
    let target = pushed->0;
    let back = dir.spec_opposite();
    lemma_gate_target_run(before, first, dir);
    lemma_gate_target_is_free(before, first, dir);
    let n = gate_steps(before, first, dir);
    assert(target == ahead(first, dir, n));
    assert(target == ahead(gate, dir, n + 1));
    assert(target != gate);
    assert forall|j: int| 1 <= j <= n implies after.contains_key(#[trigger] ahead(gate, dir, j)) by {
        assert(ahead(first, dir, j - 1) == ahead(gate, dir, j));
        assert(before.contains_key(ahead(first, dir, j - 1)));
    }
    lemma_search_back(after, gate, dir, n);
    assert(target.can_step(back));
    assert(target.step(back) == ahead(gate, dir, n));
    assert(back.spec_opposite() == dir);
    assert(after.remove(target).insert(gate, Object::PushPop(back)) =~= before);
}

/// Taking back a slide puts every block back where it was before the
/// slide, turned as it was.
pub proof fn lemma_undo_restores_blocks(g: GridModel, coords: Point, dir: Direction)
    requires
        g.wf(),
        g.slides(coords, dir),
    ensures
        g.slide(coords, dir).undo(g.slide_record(coords, dir)).ice_blocks == g.ice_blocks,
{
    let rest = g.ice_blocks.remove(coords);
    let end = g.slide_end(coords, dir);
    let after = g.slide(coords, dir);
    let rec = g.slide_record(coords, dir);
    let undone = after.undo(rec);
    let symbol = g.ice_blocks[coords];
    Transform::lemma_make(0, false);
    lemma_slide_run(g.num_cols, g.num_rows, rest, g.slide_start(coords), dir);
    lemma_transformed_back(symbol, end.transform);
    assert(g.ice_blocks.contains_key(coords));
    assert(g.holds(coords) && !g.blocked_at(coords) && symbol.wf());
    assert(blocked(after.objects, coords) == blocked(g.objects, coords));
    assert(after.can_undo(rec));
    assert(undone.ice_blocks =~= g.ice_blocks);
}

/// Taking back a slide that pushed no gate, or one, gives the objects of
/// the grid as they were before the slide, the pushed gate on its old cell
/// and pointing as before.
pub proof fn lemma_undo_restores(g: GridModel, coords: Point, dir: Direction)
    requires
        g.wf(),
        g.slides(coords, dir),
        g.slide_end(coords, dir).pushes <= 1,
    ensures
        g.slide(coords, dir).undo(g.slide_record(coords, dir)).ice_blocks == g.ice_blocks,
        g.slide(coords, dir).undo(g.slide_record(coords, dir)).objects == g.objects,
{
    let rest = g.ice_blocks.remove(coords);
    let end = g.slide_end(coords, dir);
    let after = g.slide(coords, dir);
    let rec = g.slide_record(coords, dir);
    let undone = after.undo(rec);
    lemma_undo_restores_blocks(g, coords, dir);
    Transform::lemma_make(0, false);
    lemma_slide_run(g.num_cols, g.num_rows, rest, g.slide_start(coords), dir);
    assert(g.ice_blocks.contains_key(coords));
    assert(g.holds(coords) && !g.blocked_at(coords));
    assert(blocked(after.objects, coords) == blocked(g.objects, coords));
    assert(after.can_undo(rec));
    if end.pushes == 0 {
        assert(after.objects == g.objects);
        assert(undone.objects == g.objects);
    } else {
        let gate = choose|gate: Point| #[trigger]
            one_push(g.num_cols, g.num_rows, g.objects, rest, gate, dir, end.objects, end.pushed);
        assert(g.objects.contains_key(gate));
        assert(g.holds(gate));
        lemma_gate_returns(
            g.num_cols,
            g.num_rows,
            g.objects,
            rest,
            gate,
            dir,
            end.objects,
            end.pushed,
        );
        assert(undone.objects == g.objects);
    }
}

} // verus!
