//! The order that toggling edges keeps among the pipes of a grid.

use crate::plane::links::{
    countable, counts, counts_nowhere, cross_at, lemma_counts_reversed, lemma_joining_found,
    lemma_piece_found, link_at, node_at, straight, tidy_at, tidy_cell,
};
use crate::plane::{
    first_joining, joins, piece_at, pipes_avoiding, pipes_ok, swap_removed, PipePiece, PlaneModel,
    PlaneObj,
};
use crate::point::Point;
use vstd::prelude::*;

verus! {

/// True if a wall stands on the cell.
pub open spec fn wall_cell(objects: Map<Point, PlaneObj>, c: Point) -> bool {
    objects.contains_key(c) && objects[c] == PlaneObj::Wall
}

/// True if each step of the pipe leads to a neighbouring cell and none of
/// its points is a wall.
pub open spec fn steps_ok(objects: Map<Point, PlaneObj>, pipe: Seq<Point>) -> bool {
    &&& forall|k: int| 0 <= k < pipe.len() - 1 ==> (#[trigger] pipe[k]).adjacent(pipe[k + 1])
    &&& forall|k: int| 0 <= k < pipe.len() ==> !wall_cell(objects, #[trigger] pipe[k])
}

/// True if the pipes keep order: each has two points or more, goes from
/// cell to neighbouring cell and over no wall; a node is the first or the
/// last point of each pipe that holds it; a pipe that passes over a crossing
/// runs straight through it; no other cell counts at two places for edges of
/// one orientation; and no two steps join the same two cells.
pub open spec fn tidy(objects: Map<Point, PlaneObj>, pipes: Seq<Seq<Point>>) -> bool {
    &&& pipes_ok(pipes)
    &&& forall|p: int| 0 <= p < pipes.len() ==> steps_ok(objects, #[trigger] pipes[p])
    &&& forall|p: int, k: int|
        0 <= p < pipes.len() && 0 < k < pipes[p].len() - 1 ==> !node_at(objects, #[trigger] pipes[p][k])
    &&& forall|p: int, k: int|
        0 <= p < pipes.len() && 0 < k < pipes[p].len() - 1 && cross_at(objects, #[trigger] pipes[p][k])
            ==> straight(pipes[p], k)
    &&& forall|c: Point, v: bool, p: int, k: int, q: int, j: int|
        !node_at(objects, c) && 0 <= p < pipes.len() && 0 <= q < pipes.len() && #[trigger] counts(
            objects,
            pipes[p],
            k,
            c,
            v,
        ) && #[trigger] counts(objects, pipes[q], j, c, v) ==> p == q && k == j
    &&& forall|a: Point, b: Point, p: int, k: int, q: int, j: int|
        0 <= p < pipes.len() && 0 <= q < pipes.len() && #[trigger] link_at(pipes[p], k, a, b)
            && #[trigger] link_at(pipes[q], j, a, b) ==> p == q && k == j
}

/// Pipes that keep order keep order at every edge.
pub proof fn lemma_tidy_at(objects: Map<Point, PlaneObj>, pipes: Seq<Seq<Point>>, a: Point, b: Point)
    requires
        tidy(objects, pipes),
        countable(pipes),
    ensures
        tidy_at(objects, pipes, a, b),
{
    let v = a.x == b.x;
    assert(tidy_cell(objects, pipes, a, v));
    assert(tidy_cell(objects, pipes, b, v));
}

/// No pipes keep order.
pub proof fn lemma_tidy_empty(objects: Map<Point, PlaneObj>)
    ensures
        tidy(objects, Seq::empty()),
{
}

/// A list of pipes keeps order if each of its pipes is a pipe of its own in
/// a list that keeps order.
#[verifier::rlimit(60)]
pub proof fn lemma_embedded(
    objects: Map<Point, PlaneObj>,
    one: Seq<Seq<Point>>,
    other: Seq<Seq<Point>>,
    f: spec_fn(int) -> int,
)
    requires
        tidy(objects, other),
        forall|q: int| 0 <= q < one.len() ==> 0 <= #[trigger] f(q) < other.len() && one[q] == other[f(q)],
        forall|q: int, r: int| 0 <= q < r < one.len() ==> #[trigger] f(q) != #[trigger] f(r),
    ensures
        tidy(objects, one),
{
    assert forall|q: int| 0 <= q < one.len() implies (#[trigger] one[q]).len() >= 2 && steps_ok(
        objects,
        one[q],
    ) by {
        assert(one[q] == other[f(q)]);
        assert(steps_ok(objects, other[f(q)]));
    }
    assert forall|p: int, k: int| 0 <= p < one.len() && 0 < k < one[p].len() - 1 implies !node_at(
        objects,
        #[trigger] one[p][k],
    ) by {
        assert(one[p] == other[f(p)]);
        assert(!node_at(objects, other[f(p)][k]));
    }
    assert forall|p: int, k: int|
        0 <= p < one.len() && 0 < k < one[p].len() - 1 && cross_at(objects, #[trigger] one[p][k]) implies straight(
        one[p],
        k,
    ) by {
        assert(one[p] == other[f(p)]);
        assert(cross_at(objects, other[f(p)][k]));
    }
    assert forall|c: Point, v: bool, p: int, k: int, q: int, j: int|
        !node_at(objects, c) && 0 <= p < one.len() && 0 <= q < one.len() && #[trigger] counts(
            objects,
            one[p],
            k,
            c,
            v,
        ) && #[trigger] counts(objects, one[q], j, c, v) implies p == q && k == j by {
        assert(counts(objects, other[f(p)], k, c, v));
        assert(counts(objects, other[f(q)], j, c, v));
        if p < q {
            assert(f(p) != f(q));
        } else if q < p {
            assert(f(q) != f(p));
        }
    }
    assert forall|a: Point, b: Point, p: int, k: int, q: int, j: int|
        0 <= p < one.len() && 0 <= q < one.len() && #[trigger] link_at(one[p], k, a, b)
            && #[trigger] link_at(one[q], j, a, b) implies p == q && k == j by {
        assert(link_at(other[f(p)], k, a, b));
        assert(link_at(other[f(q)], j, a, b));
        if p < q {
            assert(f(p) != f(q));
        } else if q < p {
            assert(f(q) != f(p));
        }
    }
}

/// The list with its pipe `p` moved behind the others keeps order if the
/// list does.
pub proof fn lemma_extract(objects: Map<Point, PlaneObj>, pipes: Seq<Seq<Point>>, p: int)
    requires
        tidy(objects, pipes),
        0 <= p < pipes.len(),
    ensures
        tidy(objects, swap_removed(pipes, p).push(pipes[p])),
        tidy(objects, swap_removed(pipes, p)),
{
    let n = pipes.len() as int;
    let f = |q: int| if q == n - 1 { p } else if q == p { n - 1 } else { q };
    lemma_embedded(objects, swap_removed(pipes, p).push(pipes[p]), pipes, f);
    lemma_embedded(objects, swap_removed(pipes, p), pipes, f);
}

/// The list with a pipe in the place of its pipe `p` keeps order if the list
/// keeps order with that pipe behind the others.
pub proof fn lemma_insert(objects: Map<Point, PlaneObj>, pipes: Seq<Seq<Point>>, p: int, pipe: Seq<Point>)
    requires
        0 <= p < pipes.len(),
        tidy(objects, swap_removed(pipes, p).push(pipe)),
    ensures
        tidy(objects, pipes.update(p, pipe)),
{
    let n = pipes.len() as int;
    let f = |q: int| if q == p { n - 1 } else if q == n - 1 { p } else { q };
    lemma_embedded(objects, pipes.update(p, pipe), swap_removed(pipes, p).push(pipe), f);
}

/// The list with its pipes `lo` and `hi` moved behind the others, `lo`
/// first, keeps order if the list does.
pub proof fn lemma_extract_two(objects: Map<Point, PlaneObj>, pipes: Seq<Seq<Point>>, lo: int, hi: int)
    requires
        tidy(objects, pipes),
        0 <= lo < hi < pipes.len(),
    ensures
        tidy(objects, swap_removed(swap_removed(pipes, hi), lo).push(pipes[lo]).push(pipes[hi])),
{
    let n = pipes.len() as int;
    let f = |q: int|
        if q == n - 1 {
            hi
        } else if q == n - 2 {
            lo
        } else {
            let m = if q == lo { n - 2 } else { q };
            if m == hi { n - 1 } else { m }
        };
    lemma_embedded(
        objects,
        swap_removed(swap_removed(pipes, hi), lo).push(pipes[lo]).push(pipes[hi]),
        pipes,
        f,
    );
}

/// The list with a pipe in the place of its pipe `lo` and without its pipe
/// `hi` keeps order if the list without both keeps order with that pipe
/// behind the others.
pub proof fn lemma_insert_beside(
    objects: Map<Point, PlaneObj>,
    pipes: Seq<Seq<Point>>,
    lo: int,
    hi: int,
    pipe: Seq<Point>,
)
    requires
        0 <= lo < hi < pipes.len(),
        tidy(objects, swap_removed(swap_removed(pipes, hi), lo).push(pipe)),
    ensures
        tidy(objects, swap_removed(pipes, hi).update(lo, pipe)),
{
    let n = pipes.len() as int;
    let f = |q: int| if q == lo { n - 2 } else if q == n - 2 { lo } else { q };
    lemma_embedded(
        objects,
        swap_removed(pipes, hi).update(lo, pipe),
        swap_removed(swap_removed(pipes, hi), lo).push(pipe),
        f,
    );
}

/// Both cells of a step count, where they stand in it, for an edge of the
/// step's orientation.
pub proof fn lemma_link_counts(
    objects: Map<Point, PlaneObj>,
    pipes: Seq<Seq<Point>>,
    r: int,
    i: int,
    a: Point,
    b: Point,
)
    requires
        tidy(objects, pipes),
        0 <= r < pipes.len(),
        link_at(pipes[r], i, a, b),
    ensures
        counts(objects, pipes[r], i, pipes[r][i], a.x == b.x),
        counts(objects, pipes[r], i + 1, pipes[r][i + 1], a.x == b.x),
{
    let pipe = pipes[r];
    if i > 0 && cross_at(objects, pipe[i]) {
        assert(straight(pipe, i));
    }
}

/// A list keeps order when its last pipe loses its last point.
#[verifier::rlimit(60)]
pub proof fn lemma_shrink(objects: Map<Point, PlaneObj>, rest: Seq<Seq<Point>>, pipe: Seq<Point>)
    requires
        tidy(objects, rest.push(pipe)),
        pipe.len() >= 3,
    ensures
        tidy(objects, rest.push(pipe.drop_last())),
{
    let n = rest.len() as int;
    let old = rest.push(pipe);
    let short = pipe.drop_last();
    let new = rest.push(short);
    assert(old[n] == pipe);
    assert forall|q: int| 0 <= q < new.len() implies (#[trigger] new[q]).len() >= 2 by {
        if q < n {
            assert(new[q] == old[q]);
        }
    }
    assert forall|q: int| 0 <= q < new.len() implies steps_ok(objects, #[trigger] new[q]) by {
        if q < n {
            assert(new[q] == old[q]);
            assert(steps_ok(objects, old[q]));
        } else {
            assert(steps_ok(objects, old[n]));
            assert(new[q] == short);
            assert forall|k: int| 0 <= k < short.len() - 1 implies (#[trigger] short[k]).adjacent(
                short[k + 1],
            ) by {
                assert(pipe[k].adjacent(pipe[k + 1]));
            }
            assert forall|k: int| 0 <= k < short.len() implies !wall_cell(objects, #[trigger] short[k]) by {
                assert(!wall_cell(objects, pipe[k]));
            }
        }
    }
    assert forall|p: int, k: int| 0 <= p < new.len() && 0 < k < new[p].len() - 1 implies !node_at(
        objects,
        #[trigger] new[p][k],
    ) by {
        assert(new[p][k] == old[p][k]);
    }
    assert forall|p: int, k: int|
        0 <= p < new.len() && 0 < k < new[p].len() - 1 && cross_at(objects, #[trigger] new[p][k]) implies straight(
        new[p],
        k,
    ) by {
        assert(new[p][k] == old[p][k]);
        assert(straight(old[p], k));
    }
    assert forall|c: Point, v: bool, p: int, k: int, q: int, j: int|
        !node_at(objects, c) && 0 <= p < new.len() && 0 <= q < new.len() && #[trigger] counts(
            objects,
            new[p],
            k,
            c,
            v,
        ) && #[trigger] counts(objects, new[q], j, c, v) implies p == q && k == j by {
        assert(counts(objects, old[p], k, c, v));
        assert(counts(objects, old[q], j, c, v));
    }
    assert forall|a: Point, b: Point, p: int, k: int, q: int, j: int|
        0 <= p < new.len() && 0 <= q < new.len() && #[trigger] link_at(new[p], k, a, b)
            && #[trigger] link_at(new[q], j, a, b) implies p == q && k == j by {
        assert(link_at(old[p], k, a, b));
        assert(link_at(old[q], j, a, b));
    }
}

/// A list keeps order when its last pipe is turned round.
#[verifier::rlimit(60)]
pub proof fn lemma_turn(objects: Map<Point, PlaneObj>, rest: Seq<Seq<Point>>, pipe: Seq<Point>)
    requires
        tidy(objects, rest.push(pipe)),
    ensures
        tidy(objects, rest.push(pipe.reverse())),
{
    let n = rest.len() as int;
    let old = rest.push(pipe);
    let back = pipe.reverse();
    let new = rest.push(back);
    let m = pipe.len() as int;
    assert(old[n] == pipe);
    assert(m >= 2);
    assert forall|q: int| 0 <= q < new.len() implies (#[trigger] new[q]).len() >= 2 by {
        if q < n {
            assert(new[q] == old[q]);
        }
    }
    assert forall|q: int| 0 <= q < new.len() implies steps_ok(objects, #[trigger] new[q]) by {
        if q < n {
            assert(new[q] == old[q]);
            assert(steps_ok(objects, old[q]));
        } else {
            assert(steps_ok(objects, old[n]));
            assert(new[q] == back);
            assert forall|k: int| 0 <= k < back.len() - 1 implies (#[trigger] back[k]).adjacent(
                back[k + 1],
            ) by {
                assert(back[k] == pipe[m - 1 - k]);
                assert(back[k + 1] == pipe[m - 2 - k]);
                assert(pipe[m - 2 - k].adjacent(pipe[m - 2 - k + 1]));
            }
            assert forall|k: int| 0 <= k < back.len() implies !wall_cell(objects, #[trigger] back[k]) by {
                assert(back[k] == pipe[m - 1 - k]);
                assert(!wall_cell(objects, pipe[m - 1 - k]));
            }
        }
    }
    assert forall|p: int, k: int| 0 <= p < new.len() && 0 < k < new[p].len() - 1 implies !node_at(
        objects,
        #[trigger] new[p][k],
    ) by {
        if p < n {
            assert(new[p][k] == old[p][k]);
        } else {
            assert(back[k] == old[n][m - 1 - k]);
        }
    }
    assert forall|p: int, k: int|
        0 <= p < new.len() && 0 < k < new[p].len() - 1 && cross_at(objects, #[trigger] new[p][k]) implies straight(
        new[p],
        k,
    ) by {
        if p < n {
            assert(new[p][k] == old[p][k]);
            assert(straight(old[p], k));
        } else {
            assert(back[k] == old[n][m - 1 - k]);
            assert(straight(old[n], m - 1 - k));
        }
    }
    assert forall|c: Point, v: bool, p: int, k: int, q: int, j: int|
        !node_at(objects, c) && 0 <= p < new.len() && 0 <= q < new.len() && #[trigger] counts(
            objects,
            new[p],
            k,
            c,
            v,
        ) && #[trigger] counts(objects, new[q], j, c, v) implies p == q && k == j by {
        assert forall|i: int| 0 < i < m - 1 && #[trigger] pipe[i] == c && cross_at(objects, c) implies straight(
            pipe,
            i,
        ) by {
            assert(cross_at(objects, old[n][i]));
        }
        let ok = if p < n { k } else { m - 1 - k };
        let oj = if q < n { j } else { m - 1 - j };
        if p == n {
            lemma_counts_reversed(objects, pipe, k, c, v);
        }
        if q == n {
            lemma_counts_reversed(objects, pipe, j, c, v);
        }
        assert(counts(objects, old[p], ok, c, v));
        assert(counts(objects, old[q], oj, c, v));
    }
    assert forall|a: Point, b: Point, p: int, k: int, q: int, j: int|
        0 <= p < new.len() && 0 <= q < new.len() && #[trigger] link_at(new[p], k, a, b)
            && #[trigger] link_at(new[q], j, a, b) implies p == q && k == j by {
        let ok = if p < n { k } else { m - 2 - k };
        let oj = if q < n { j } else { m - 2 - j };
        assert(link_at(old[p], ok, a, b));
        assert(link_at(old[q], oj, a, b));
    }
}

/// A list keeps order when its last pipe is cut in two between two of its
/// inner points.
#[verifier::rlimit(60)]
pub proof fn lemma_cut_keeps(objects: Map<Point, PlaneObj>, rest: Seq<Seq<Point>>, pipe: Seq<Point>, at: int)
    requires
        tidy(objects, rest.push(pipe)),
        2 <= at <= pipe.len() - 2,
    ensures
        tidy(objects, rest.push(pipe.subrange(0, at)).push(pipe.subrange(at, pipe.len() as int))),
{
    let n = rest.len() as int;
    let old = rest.push(pipe);
    let m = pipe.len() as int;
    let head = pipe.subrange(0, at);
    let tail = pipe.subrange(at, m);
    let new = rest.push(head).push(tail);
    assert(old[n] == pipe);
    assert(new[n] == head && new[n + 1] == tail);
    assert forall|q: int| 0 <= q < new.len() implies (#[trigger] new[q]).len() >= 2 by {
        if q < n {
            assert(new[q] == old[q]);
        }
    }
    assert forall|q: int| 0 <= q < new.len() implies steps_ok(objects, #[trigger] new[q]) by {
        if q < n {
            assert(new[q] == old[q]);
            assert(steps_ok(objects, old[q]));
        } else {
            assert(steps_ok(objects, old[n]));
            if q == n {
                assert(new[q] == head);
                assert forall|k: int| 0 <= k < head.len() - 1 implies (#[trigger] head[k]).adjacent(
                    head[k + 1],
                ) by {
                    assert(pipe[k].adjacent(pipe[k + 1]));
                }
                assert forall|k: int| 0 <= k < head.len() implies !wall_cell(objects, #[trigger] head[k]) by {
                    assert(!wall_cell(objects, pipe[k]));
                }
            } else {
                assert(new[q] == tail);
                assert forall|k: int| 0 <= k < tail.len() - 1 implies (#[trigger] tail[k]).adjacent(
                    tail[k + 1],
                ) by {
                    assert(tail[k] == pipe[at + k]);
                    assert(tail[k + 1] == pipe[at + k + 1]);
                    assert(pipe[at + k].adjacent(pipe[at + k + 1]));
                }
                assert forall|k: int| 0 <= k < tail.len() implies !wall_cell(objects, #[trigger] tail[k]) by {
                    assert(tail[k] == pipe[at + k]);
                    assert(!wall_cell(objects, pipe[at + k]));
                }
            }
        }
    }
    assert forall|p: int, k: int| 0 <= p < new.len() && 0 < k < new[p].len() - 1 implies !node_at(
        objects,
        #[trigger] new[p][k],
    ) by {
        if p < n {
            assert(new[p][k] == old[p][k]);
        } else if p == n {
            assert(head[k] == old[n][k]);
        } else {
            assert(tail[k] == old[n][at + k]);
        }
    }
    assert forall|p: int, k: int|
        0 <= p < new.len() && 0 < k < new[p].len() - 1 && cross_at(objects, #[trigger] new[p][k]) implies straight(
        new[p],
        k,
    ) by {
        if p < n {
            assert(new[p][k] == old[p][k]);
            assert(straight(old[p], k));
        } else if p == n {
            assert(head[k] == old[n][k]);
            assert(straight(old[n], k));
        } else {
            assert(tail[k] == old[n][at + k]);
            assert(straight(old[n], at + k));
        }
    }
    assert forall|c: Point, v: bool, p: int, k: int, q: int, j: int|
        !node_at(objects, c) && 0 <= p < new.len() && 0 <= q < new.len() && #[trigger] counts(
            objects,
            new[p],
            k,
            c,
            v,
        ) && #[trigger] counts(objects, new[q], j, c, v) implies p == q && k == j by {
        let op = if p <= n { p } else { n };
        let ok = if p <= n { k } else { at + k };
        let oq = if q <= n { q } else { n };
        let oj = if q <= n { j } else { at + j };
        if cross_at(objects, c) && pipe[at] == c {
            assert(cross_at(objects, old[n][at]));
            assert(straight(old[n], at));
        }
        assert(counts(objects, old[op], ok, c, v));
        assert(counts(objects, old[oq], oj, c, v));
    }
    assert forall|a: Point, b: Point, p: int, k: int, q: int, j: int|
        0 <= p < new.len() && 0 <= q < new.len() && #[trigger] link_at(new[p], k, a, b)
            && #[trigger] link_at(new[q], j, a, b) implies p == q && k == j by {
        let op = if p <= n { p } else { n };
        let ok = if p <= n { k } else { at + k };
        let oq = if q <= n { q } else { n };
        let oj = if q <= n { j } else { at + j };
        assert(link_at(old[op], ok, a, b));
        assert(link_at(old[oq], oj, a, b));
    }
}

/// A list keeps order when its last pipe grows, at its end, by a
/// neighbouring cell that is a node or counts nowhere, unless the pipe
/// consists of that node and one more point.
#[verifier::rlimit(60)]
pub proof fn lemma_grow(objects: Map<Point, PlaneObj>, rest: Seq<Seq<Point>>, pipe: Seq<Point>, c: Point)
    requires
        tidy(objects, rest.push(pipe)),
        pipe.last().adjacent(c),
        !node_at(objects, pipe.last()),
        counts(objects, pipe, pipe.len() - 1, pipe.last(), pipe.last().x == c.x),
        node_at(objects, c) || counts_nowhere(objects, rest.push(pipe), c, pipe.last().x == c.x),
        !(node_at(objects, c) && pipe.len() == 2 && pipe[0] == c),
        !wall_cell(objects, c),
    ensures
        tidy(objects, rest.push(pipe.push(c))),
{
    let n = rest.len() as int;
    let old = rest.push(pipe);
    let long = pipe.push(c);
    let new = rest.push(long);
    let m = pipe.len() as int;
    let x = pipe.last();
    let v = x.x == c.x;
    assert(old[n] == pipe);
    assert(m >= 2);
    assert forall|q: int| 0 <= q < new.len() implies (#[trigger] new[q]).len() >= 2 by {
        if q < n {
            assert(new[q] == old[q]);
        }
    }
    assert forall|q: int| 0 <= q < new.len() implies steps_ok(objects, #[trigger] new[q]) by {
        if q < n {
            assert(new[q] == old[q]);
            assert(steps_ok(objects, old[q]));
        } else {
            assert(steps_ok(objects, old[n]));
            assert(new[q] == long);
            assert forall|k: int| 0 <= k < long.len() - 1 implies (#[trigger] long[k]).adjacent(
                long[k + 1],
            ) by {
                if k < m - 1 {
                    assert(pipe[k].adjacent(pipe[k + 1]));
                }
            }
            assert forall|k: int| 0 <= k < long.len() implies !wall_cell(objects, #[trigger] long[k]) by {
                if k < m {
                    assert(!wall_cell(objects, pipe[k]));
                }
            }
        }
    }
    assert forall|p: int, k: int| 0 <= p < new.len() && 0 < k < new[p].len() - 1 implies !node_at(
        objects,
        #[trigger] new[p][k],
    ) by {
        if p < n || k < m - 1 {
            assert(new[p][k] == old[p][k]);
        }
    }
    assert forall|p: int, k: int|
        0 <= p < new.len() && 0 < k < new[p].len() - 1 && cross_at(objects, #[trigger] new[p][k]) implies straight(
        new[p],
        k,
    ) by {
        if p < n || k < m - 1 {
            assert(new[p][k] == old[p][k]);
            assert(straight(old[p], k));
        }
    }
    assert forall|c2: Point, v2: bool, p: int, k: int, q: int, j: int|
        !node_at(objects, c2) && 0 <= p < new.len() && 0 <= q < new.len() && #[trigger] counts(
            objects,
            new[p],
            k,
            c2,
            v2,
        ) && #[trigger] counts(objects, new[q], j, c2, v2) implies p == q && k == j by {
        let fresh_p = p == n && k == m;
        let fresh_q = q == n && j == m;
        if !fresh_p {
            assert(counts(objects, old[p], k, c2, v2));
        }
        if !fresh_q {
            assert(counts(objects, old[q], j, c2, v2));
        }
        if fresh_p && !fresh_q {
            assert(counts(objects, old[q], j, c, v));
        }
        if fresh_q && !fresh_p {
            assert(counts(objects, old[p], k, c, v));
        }
    }
    assert forall|a: Point, b: Point, p: int, k: int, q: int, j: int|
        0 <= p < new.len() && 0 <= q < new.len() && #[trigger] link_at(new[p], k, a, b)
            && #[trigger] link_at(new[q], j, a, b) implies p == q && k == j by {
        let fresh_p = p == n && k == m - 1;
        let fresh_q = q == n && j == m - 1;
        if !fresh_p {
            assert(link_at(old[p], k, a, b));
        }
        if !fresh_q {
            assert(link_at(old[q], j, a, b));
        }
        if fresh_p != fresh_q {
            let r = if fresh_p { q } else { p };
            let i = if fresh_p { j } else { k };
            assert(link_at(old[r], i, x, c));
            lemma_link_counts(objects, old, r, i, x, c);
            if node_at(objects, c) {
                let at = if old[r][i] == x { i } else { i + 1 };
                assert(counts(objects, old[r], at, x, v));
                assert(counts(objects, old[n], m - 1, x, v));
                assert(r == n && at == m - 1);
                assert(pipe[m - 2] == c);
                if m > 2 {
                    assert(!node_at(objects, old[n][m - 2]));
                }
            } else {
                let at = if old[r][i] == c { i } else { i + 1 };
                assert(counts(objects, old[r], at, c, v));
            }
        }
    }
}

/// A list keeps order when its last two pipes are joined, the end of the
/// first to the start of the second, where those two points are neighbours
/// and count there for an edge between them.
#[verifier::rlimit(60)]
pub proof fn lemma_join(
    objects: Map<Point, PlaneObj>,
    rest: Seq<Seq<Point>>,
    first: Seq<Point>,
    second: Seq<Point>,
)
    requires
        tidy(objects, rest.push(first).push(second)),
        first.last().adjacent(second[0]),
        !node_at(objects, first.last()),
        !node_at(objects, second[0]),
        counts(objects, first, first.len() - 1, first.last(), first.last().x == second[0].x),
        counts(objects, second, 0, second[0], first.last().x == second[0].x),
    ensures
        tidy(objects, rest.push(first + second)),
{
    let n = rest.len() as int;
    let old = rest.push(first).push(second);
    let joined = first + second;
    let new = rest.push(joined);
    let m = first.len() as int;
    let x = first.last();
    let y = second[0];
    let v = x.x == y.x;
    assert(old[n] == first && old[n + 1] == second);
    assert(m >= 2 && second.len() >= 2);
    assert forall|j: int| 0 <= j < m implies joined[j] == first[j] by {}
    assert forall|j: int| m <= j < joined.len() implies joined[j] == second[j - m] by {}
    assert forall|q: int| 0 <= q < new.len() implies (#[trigger] new[q]).len() >= 2 by {
        if q < n {
            assert(new[q] == old[q]);
        }
    }
    assert forall|q: int| 0 <= q < new.len() implies steps_ok(objects, #[trigger] new[q]) by {
        if q < n {
            assert(new[q] == old[q]);
            assert(steps_ok(objects, old[q]));
        } else {
            assert(steps_ok(objects, old[n]));
            assert(steps_ok(objects, old[n + 1]));
            assert(new[q] == joined);
            assert forall|k: int| 0 <= k < joined.len() - 1 implies (#[trigger] joined[k]).adjacent(
                joined[k + 1],
            ) by {
                if k < m - 1 {
                    assert(first[k].adjacent(first[k + 1]));
                } else if k >= m {
                    assert(joined[k] == second[k - m]);
                    assert(joined[k + 1] == second[k - m + 1]);
                    assert(second[k - m].adjacent(second[k - m + 1]));
                }
            }
            assert forall|k: int| 0 <= k < joined.len() implies !wall_cell(objects, #[trigger] joined[k]) by {
                if k < m {
                    assert(!wall_cell(objects, first[k]));
                } else {
                    assert(joined[k] == second[k - m]);
                    assert(!wall_cell(objects, second[k - m]));
                }
            }
        }
    }
    assert forall|p: int, k: int| 0 <= p < new.len() && 0 < k < new[p].len() - 1 implies !node_at(
        objects,
        #[trigger] new[p][k],
    ) by {
        if p < n {
            assert(new[p][k] == old[p][k]);
        } else if k < m - 1 {
            assert(joined[k] == old[n][k]);
        } else if k > m {
            assert(joined[k] == old[n + 1][k - m]);
        }
    }
    assert forall|p: int, k: int|
        0 <= p < new.len() && 0 < k < new[p].len() - 1 && cross_at(objects, #[trigger] new[p][k]) implies straight(
        new[p],
        k,
    ) by {
        if p < n {
            assert(new[p][k] == old[p][k]);
            assert(straight(old[p], k));
        } else if k < m - 1 {
            assert(joined[k] == old[n][k]);
            assert(straight(old[n], k));
        } else if k > m {
            assert(joined[k] == old[n + 1][k - m]);
            assert(straight(old[n + 1], k - m));
        }
    }
    assert forall|c: Point, v2: bool, p: int, k: int, q: int, j: int|
        !node_at(objects, c) && 0 <= p < new.len() && 0 <= q < new.len() && #[trigger] counts(
            objects,
            new[p],
            k,
            c,
            v2,
        ) && #[trigger] counts(objects, new[q], j, c, v2) implies p == q && k == j by {
        let op = if p < n || k < m { p } else { n + 1 };
        let ok = if p < n || k < m { k } else { k - m };
        let oq = if q < n || j < m { q } else { n + 1 };
        let oj = if q < n || j < m { j } else { j - m };
        assert(counts(objects, old[op], ok, c, v2));
        assert(counts(objects, old[oq], oj, c, v2));
    }
    assert forall|a: Point, b: Point, p: int, k: int, q: int, j: int|
        0 <= p < new.len() && 0 <= q < new.len() && #[trigger] link_at(new[p], k, a, b)
            && #[trigger] link_at(new[q], j, a, b) implies p == q && k == j by {
        let fresh_p = p == n && k == m - 1;
        let fresh_q = q == n && j == m - 1;
        let op = if p < n || k < m { p } else { n + 1 };
        let ok = if p < n || k < m { k } else { k - m };
        let oq = if q < n || j < m { q } else { n + 1 };
        let oj = if q < n || j < m { j } else { j - m };
        if !fresh_p {
            assert(link_at(old[op], ok, a, b));
        }
        if !fresh_q {
            assert(link_at(old[oq], oj, a, b));
        }
        if fresh_p != fresh_q {
            let r = if fresh_p { oq } else { op };
            let i = if fresh_p { oj } else { ok };
            assert(link_at(old[r], i, x, y));
            lemma_link_counts(objects, old, r, i, x, y);
            let at = if old[r][i] == x { i } else { i + 1 };
            let ay = if old[r][i] == y { i } else { i + 1 };
            assert(counts(objects, old[r], at, x, v));
            assert(counts(objects, old[r], ay, y, v));
            assert(counts(objects, old[n], m - 1, x, v));
            assert(counts(objects, old[n + 1], 0, y, v));
        }
    }
}

/// A list keeps order when a pipe of two neighbouring cells is laid behind
/// its pipes, where each of the two is a node or counts nowhere and, if both
/// are nodes, no pipe consists of the two.
#[verifier::rlimit(60)]
pub proof fn lemma_lay(objects: Map<Point, PlaneObj>, rest: Seq<Seq<Point>>, a: Point, b: Point)
    requires
        tidy(objects, rest),
        a.adjacent(b),
        !wall_cell(objects, a),
        !wall_cell(objects, b),
        node_at(objects, a) || counts_nowhere(objects, rest, a, a.x == b.x),
        node_at(objects, b) || counts_nowhere(objects, rest, b, a.x == b.x),
        !(node_at(objects, a) && node_at(objects, b)) || forall|q: int|
            0 <= q < rest.len() ==> !crate::plane::joins(#[trigger] rest[q], a, b),
    ensures
        tidy(objects, rest.push(seq![a, b])),
{
    let n = rest.len() as int;
    let pair = seq![a, b];
    let new = rest.push(pair);
    let v = a.x == b.x;
    assert(new[n] == pair);
    assert forall|q: int| 0 <= q < new.len() implies (#[trigger] new[q]).len() >= 2 by {
        if q < n {
            assert(new[q] == rest[q]);
        }
    }
    assert forall|q: int| 0 <= q < new.len() implies steps_ok(objects, #[trigger] new[q]) by {
        if q < n {
            assert(new[q] == rest[q]);
            assert(steps_ok(objects, rest[q]));
        } else {
            assert(new[q] == pair);
        }
    }
    assert forall|p: int, k: int| 0 <= p < new.len() && 0 < k < new[p].len() - 1 implies !node_at(
        objects,
        #[trigger] new[p][k],
    ) by {
        assert(new[p][k] == rest[p][k]);
    }
    assert forall|p: int, k: int|
        0 <= p < new.len() && 0 < k < new[p].len() - 1 && cross_at(objects, #[trigger] new[p][k]) implies straight(
        new[p],
        k,
    ) by {
        assert(new[p][k] == rest[p][k]);
        assert(straight(rest[p], k));
    }
    assert forall|c: Point, v2: bool, p: int, k: int, q: int, j: int|
        !node_at(objects, c) && 0 <= p < new.len() && 0 <= q < new.len() && #[trigger] counts(
            objects,
            new[p],
            k,
            c,
            v2,
        ) && #[trigger] counts(objects, new[q], j, c, v2) implies p == q && k == j by {
        if p < n {
            assert(counts(objects, rest[p], k, c, v2));
        }
        if q < n {
            assert(counts(objects, rest[q], j, c, v2));
        }
        if p == n && q < n {
            assert(counts(objects, rest[q], j, c, v));
        }
        if q == n && p < n {
            assert(counts(objects, rest[p], k, c, v));
        }
    }
    assert forall|x: Point, y: Point, p: int, k: int, q: int, j: int|
        0 <= p < new.len() && 0 <= q < new.len() && #[trigger] link_at(new[p], k, x, y)
            && #[trigger] link_at(new[q], j, x, y) implies p == q && k == j by {
        if p < n {
            assert(link_at(rest[p], k, x, y));
        }
        if q < n {
            assert(link_at(rest[q], j, x, y));
        }
        if (p == n) != (q == n) {
            let r = if p == n { q } else { p };
            let i = if p == n { j } else { k };
            assert(link_at(rest[r], i, a, b));
            lemma_link_counts(objects, rest, r, i, a, b);
            let ia = if rest[r][i] == a { i } else { i + 1 };
            let ib = if rest[r][i] == b { i } else { i + 1 };
            assert(counts(objects, rest[r], ia, a, v));
            assert(counts(objects, rest[r], ib, b, v));
            if node_at(objects, a) && node_at(objects, b) {
                if i > 0 {
                    assert(!node_at(objects, rest[r][i]));
                }
                if i + 1 < rest[r].len() - 1 {
                    assert(!node_at(objects, rest[r][i + 1]));
                }
                assert(crate::plane::joins(rest[r], a, b));
            }
        }
    }
}

/// A list keeps order when its last two pipes change places.
pub proof fn lemma_swap_last(
    objects: Map<Point, PlaneObj>,
    rest: Seq<Seq<Point>>,
    first: Seq<Point>,
    second: Seq<Point>,
)
    requires
        tidy(objects, rest.push(first).push(second)),
    ensures
        tidy(objects, rest.push(second).push(first)),
{
    let n = rest.len() as int;
    let f = |q: int| if q == n { n + 1 } else if q == n + 1 { n } else { q };
    lemma_embedded(objects, rest.push(second).push(first), rest.push(first).push(second), f);
}

/// The list with two pipes in the place of its pipe `p`, the first there
/// and the second behind the others, keeps order if the list without pipe
/// `p` keeps order with the two behind the others.
pub proof fn lemma_insert_two(
    objects: Map<Point, PlaneObj>,
    pipes: Seq<Seq<Point>>,
    p: int,
    first: Seq<Point>,
    second: Seq<Point>,
)
    requires
        0 <= p < pipes.len(),
        tidy(objects, swap_removed(pipes, p).push(first).push(second)),
    ensures
        tidy(objects, pipes.update(p, first).push(second)),
{
    let n = pipes.len() as int;
    let f = |q: int|
        if q == n {
            n
        } else if q == p {
            n - 1
        } else if q == n - 1 {
            p
        } else {
            q
        };
    lemma_embedded(
        objects,
        pipes.update(p, first).push(second),
        swap_removed(pipes, p).push(first).push(second),
        f,
    );
}

/// A cell that counts nowhere in a list counts nowhere in a list that holds
/// only pipes of that list, each as it is or turned round.
proof fn lemma_counts_nowhere_still(
    objects: Map<Point, PlaneObj>,
    pipes: Seq<Seq<Point>>,
    other: Seq<Seq<Point>>,
    c: Point,
    v: bool,
)
    requires
        tidy(objects, pipes),
        counts_nowhere(objects, pipes, c, v),
        forall|q: int|
            0 <= q < other.len() ==> exists|r: int|
                0 <= r < pipes.len() && (#[trigger] other[q] == #[trigger] pipes[r] || other[q]
                    == pipes[r].reverse()),
    ensures
        counts_nowhere(objects, other, c, v),
{
    assert forall|q: int, j: int| 0 <= q < other.len() implies !#[trigger] counts(objects, other[q], j, c, v) by {
        let r = choose|r: int|
            0 <= r < pipes.len() && (#[trigger] other[q] == #[trigger] pipes[r] || other[q]
                == pipes[r].reverse());
        if counts(objects, other[q], j, c, v) {
            if other[q] == pipes[r] {
                assert(counts(objects, pipes[r], j, c, v));
            } else {
                let pipe = pipes[r];
                assert forall|i: int| 0 < i < pipe.len() - 1 && #[trigger] pipe[i] == c && cross_at(objects, c) implies straight(
                    pipe,
                    i,
                ) by {
                    assert(cross_at(objects, pipes[r][i]));
                }
                lemma_counts_reversed(objects, pipe, j, c, v);
                assert(counts(objects, pipes[r], pipe.len() - 1 - j, c, v));
            }
        }
    }
}

/// The pipes keep order after an edge was toggled at the end of pipe `p`,
/// or, with `at_start`, at its start.
#[verifier::rlimit(60)]
proof fn lemma_keeps_at_end(
    objects: Map<Point, PlaneObj>,
    pipes: Seq<Seq<Point>>,
    p: int,
    c: Point,
    at_start: bool,
)
    requires
        tidy(objects, pipes),
        0 <= p < pipes.len(),
        ({
            let x = if at_start { pipes[p][0] } else { pipes[p].last() };
            let k = if at_start { 0 } else { pipes[p].len() - 1 };
            &&& x.adjacent(c)
            &&& !node_at(objects, x)
            &&& !wall_cell(objects, c)
            &&& counts(objects, pipes[p], k, x, x.x == c.x)
            &&& node_at(objects, c) || counts_nowhere(objects, pipes, c, x.x == c.x)
        }),
    ensures
        tidy(
            objects,
            if at_start {
                crate::plane::toggled_at_start(pipes, p, node_at(objects, c), c)
            } else {
                crate::plane::toggled_at_end(pipes, p, node_at(objects, c), c)
            },
        ),
{
    let n = pipes.len() as int;
    let pipe = pipes[p];
    let m = pipe.len() as int;
    let node = node_at(objects, c);
    let rest = swap_removed(pipes, p);
    assert(m >= 2);
    lemma_extract(objects, pipes, p);
    let gone = if at_start { node && pipe[1] == c } else { node && m == 2 && pipe[0] == c };
    if !gone {
        let x = if at_start { pipe[0] } else { pipe.last() };
        let v = x.x == c.x;
        let turned = if at_start { pipe.reverse() } else { pipe };
        if at_start {
            lemma_turn(objects, rest, pipe);
            assert forall|i: int| 0 < i < m - 1 && #[trigger] pipe[i] == x && cross_at(objects, x) implies straight(
                pipe,
                i,
            ) by {
                assert(cross_at(objects, pipes[p][i]));
            }
            lemma_counts_reversed(objects, pipe, m - 1, x, v);
        }
        assert(turned.last() == x);
        if !node {
            assert forall|q: int| 0 <= q < rest.push(turned).len() implies exists|r: int|
                0 <= r < pipes.len() && (#[trigger] rest.push(turned)[q] == #[trigger] pipes[r]
                    || rest.push(turned)[q] == pipes[r].reverse()) by {
                let r = if q == n - 1 { p } else if q == p { n - 1 } else { q };
                assert(rest.push(turned)[q] == pipes[r] || rest.push(turned)[q] == pipes[r].reverse());
            }
            lemma_counts_nowhere_still(objects, pipes, rest.push(turned), c, v);
        }
        lemma_grow(objects, rest, turned, c);
        if at_start {
            lemma_turn(objects, rest, turned.push(c));
            assert(turned.push(c).reverse() =~= pipe.insert(0, c));
        }
        lemma_insert(objects, pipes, p, if at_start { pipe.insert(0, c) } else { pipe.push(c) });
    }
}

/// The pipes keep order after pipe `p` lost its last point, or, with
/// `at_start`, its first.
proof fn lemma_keeps_shrunk(objects: Map<Point, PlaneObj>, pipes: Seq<Seq<Point>>, p: int, at_start: bool)
    requires
        tidy(objects, pipes),
        0 <= p < pipes.len(),
        pipes[p].len() >= 3,
    ensures
        tidy(
            objects,
            pipes.update(
                p,
                if at_start {
                    pipes[p].remove(0)
                } else {
                    pipes[p].drop_last()
                },
            ),
        ),
{
    let pipe = pipes[p];
    let rest = swap_removed(pipes, p);
    lemma_extract(objects, pipes, p);
    if at_start {
        lemma_turn(objects, rest, pipe);
        lemma_shrink(objects, rest, pipe.reverse());
        lemma_turn(objects, rest, pipe.reverse().drop_last());
        assert(pipe.reverse().drop_last().reverse() =~= pipe.remove(0));
        lemma_insert(objects, pipes, p, pipe.remove(0));
    } else {
        lemma_shrink(objects, rest, pipe);
        lemma_insert(objects, pipes, p, pipe.drop_last());
    }
}

/// The pipes keep order after two of them were joined at the two points
/// where the cells of an edge count.
#[verifier::rlimit(60)]
proof fn lemma_keeps_joined(
    objects: Map<Point, PlaneObj>,
    pipes: Seq<Seq<Point>>,
    a: Point,
    b: Point,
    p1: int,
    at_start1: bool,
    p2: int,
    at_start2: bool,
)
    requires
        tidy(objects, pipes),
        a.adjacent(b),
        0 <= p1 < pipes.len(),
        0 <= p2 < pipes.len(),
        p1 != p2,
        !node_at(objects, a),
        !node_at(objects, b),
        counts(objects, pipes[p1], if at_start1 { 0 } else { pipes[p1].len() - 1 }, a, a.x == b.x),
        counts(objects, pipes[p2], if at_start2 { 0 } else { pipes[p2].len() - 1 }, b, a.x == b.x),
    ensures
        ({
            let lo = if p1 < p2 { p1 } else { p2 };
            let hi = if p1 < p2 { p2 } else { p1 };
            let rest = swap_removed(swap_removed(pipes, hi), lo);
            if at_start1 && at_start2 {
                tidy(objects, swap_removed(pipes, hi).update(lo, pipes[lo].reverse() + pipes[hi]))
            } else if !at_start1 && !at_start2 {
                tidy(objects, swap_removed(pipes, hi).update(lo, pipes[lo] + pipes[hi].reverse()))
            } else {
                let e = if at_start1 { p2 } else { p1 };
                let s = if at_start1 { p1 } else { p2 };
                if e < s {
                    tidy(objects, swap_removed(pipes, s).update(e, pipes[e] + pipes[s]))
                } else {
                    tidy(objects, rest.push(pipes[e] + pipes[s]))
                }
            }
        }),
{
    let v = a.x == b.x;
    let lo = if p1 < p2 { p1 } else { p2 };
    let hi = if p1 < p2 { p2 } else { p1 };
    let rest = swap_removed(swap_removed(pipes, hi), lo);
    let low = pipes[lo];
    let high = pipes[hi];
    assert(low.len() >= 2 && high.len() >= 2);
    lemma_extract_two(objects, pipes, lo, hi);
    if at_start1 && at_start2 {
        let x = low[0];
        lemma_swap_last(objects, rest, low, high);
        lemma_turn(objects, rest.push(high), low);
        lemma_swap_last(objects, rest, high, low.reverse());
        assert forall|i: int| 0 < i < low.len() - 1 && #[trigger] low[i] == x && cross_at(objects, x) implies straight(
            low,
            i,
        ) by {
            assert(cross_at(objects, pipes[lo][i]));
        }
        lemma_counts_reversed(objects, low, low.len() - 1, x, v);
        assert(low.reverse().last() == x);
        lemma_join(objects, rest, low.reverse(), high);
        lemma_insert_beside(objects, pipes, lo, hi, low.reverse() + high);
    } else if !at_start1 && !at_start2 {
        let y = high.last();
        lemma_turn(objects, rest.push(low), high);
        assert forall|i: int| 0 < i < high.len() - 1 && #[trigger] high[i] == y && cross_at(objects, y) implies straight(
            high,
            i,
        ) by {
            assert(cross_at(objects, pipes[hi][i]));
        }
        lemma_counts_reversed(objects, high, 0, y, v);
        assert(high.reverse()[0] == y);
        lemma_join(objects, rest, low, high.reverse());
        lemma_insert_beside(objects, pipes, lo, hi, low + high.reverse());
    } else {
        let e = if at_start1 { p2 } else { p1 };
        let s = if at_start1 { p1 } else { p2 };
        if e < s {
            lemma_join(objects, rest, low, high);
            lemma_insert_beside(objects, pipes, lo, hi, low + high);
        } else {
            lemma_swap_last(objects, rest, low, high);
            lemma_join(objects, rest, high, low);
        }
    }
}

/// Toggling an edge keeps the pipes in order.
#[verifier::rlimit(60)]
pub proof fn lemma_toggle_keeps_tidy(g: PlaneModel, a: Point, b: Point)
    requires
        tidy(g.objects, g.pipes),
        countable(g.pipes),
    ensures
        tidy(g.objects, g.toggled(a, b).pipes),
{
    let objects = g.objects;
    let pipes = g.pipes;
    let v = a.x == b.x;
    if g.edge_allowed(a, b) {
        let piece1 = piece_at(objects, pipes, a, v);
        let piece2 = piece_at(objects, pipes, b, v);
        lemma_piece_found(objects, pipes, a, v);
        lemma_piece_found(objects, pipes, b, v);
        match (piece1, piece2) {
            (PipePiece::EmptyOrNode(n1), PipePiece::EmptyOrNode(n2)) => {
                let direct = first_joining(pipes, 0, a, b);
                lemma_joining_found(pipes, 0, a, b);
                if n1 && n2 && direct is Some {
                    lemma_extract(objects, pipes, direct->0);
                } else {
                    lemma_lay(objects, pipes, a, b);
                }
            },
            (PipePiece::EmptyOrNode(n), PipePiece::Start(p2)) => {
                lemma_keeps_at_end(objects, pipes, p2 as int, a, true);
            },
            (PipePiece::EmptyOrNode(n), PipePiece::End(p2)) => {
                lemma_keeps_at_end(objects, pipes, p2 as int, a, false);
            },
            (PipePiece::Start(p1), PipePiece::EmptyOrNode(n)) => {
                lemma_keeps_at_end(objects, pipes, p1 as int, b, true);
            },
            (PipePiece::End(p1), PipePiece::EmptyOrNode(n)) => {
                lemma_keeps_at_end(objects, pipes, p1 as int, b, false);
            },
            (PipePiece::Start(p1), PipePiece::Start(p2)) => {
                lemma_keeps_joined(objects, pipes, a, b, p1 as int, true, p2 as int, true);
            },
            (PipePiece::End(p1), PipePiece::End(p2)) => {
                lemma_keeps_joined(objects, pipes, a, b, p1 as int, false, p2 as int, false);
            },
            (PipePiece::End(e), PipePiece::Start(s)) => {
                if e == s {
                    lemma_extract(objects, pipes, e as int);
                } else {
                    lemma_keeps_joined(objects, pipes, a, b, e as int, false, s as int, true);
                }
            },
            (PipePiece::Start(s), PipePiece::End(e)) => {
                if e == s {
                    lemma_extract(objects, pipes, e as int);
                } else {
                    lemma_keeps_joined(objects, pipes, a, b, s as int, true, e as int, false);
                }
            },
            (PipePiece::Start(p), PipePiece::Middle(q, k)) => {
                if p == q && k == 1 {
                    lemma_keeps_shrunk(objects, pipes, p as int, true);
                }
            },
            (PipePiece::Middle(q, k), PipePiece::Start(p)) => {
                if p == q && k == 1 {
                    lemma_keeps_shrunk(objects, pipes, p as int, true);
                }
            },
            (PipePiece::Middle(q, k), PipePiece::End(p)) => {
                if p == q && k + 2 == pipes[p as int].len() {
                    lemma_keeps_shrunk(objects, pipes, p as int, false);
                }
            },
            (PipePiece::End(p), PipePiece::Middle(q, k)) => {
                if p == q && k + 2 == pipes[p as int].len() {
                    lemma_keeps_shrunk(objects, pipes, p as int, false);
                }
            },
            (PipePiece::Middle(p1, k1), PipePiece::Middle(p2, k2)) => {
                let lo = if k1 <= k2 { k1 as int } else { k2 as int };
                let hi = if k1 <= k2 { k2 as int } else { k1 as int };
                if p1 == p2 && lo + 1 == hi {
                    let p = p1 as int;
                    lemma_extract(objects, pipes, p);
                    lemma_cut_keeps(objects, swap_removed(pipes, p), pipes[p], hi);
                    lemma_insert_two(
                        objects,
                        pipes,
                        p,
                        pipes[p].subrange(0, hi),
                        pipes[p].subrange(hi, pipes[p].len() as int),
                    );
                }
            },
            (PipePiece::Middle(p1, k1), PipePiece::EmptyOrNode(n)) => {
                if n && k1 == 1 && pipes[p1 as int][0] == b {
                    lemma_keeps_shrunk(objects, pipes, p1 as int, true);
                } else if n && k1 + 2 == pipes[p1 as int].len() && pipes[p1 as int][k1 + 1] == b {
                    lemma_keeps_shrunk(objects, pipes, p1 as int, false);
                }
            },
            (PipePiece::EmptyOrNode(n), PipePiece::Middle(p2, k2)) => {
                if n && k2 == 1 && pipes[p2 as int][0] == a {
                    lemma_keeps_shrunk(objects, pipes, p2 as int, true);
                } else if n && k2 + 2 == pipes[p2 as int].len() && pipes[p2 as int][k2 + 1] == a {
                    lemma_keeps_shrunk(objects, pipes, p2 as int, false);
                }
            },
        }
    }
}

/// The place in `pipes` of pipe `q` of the pipes that do not pass through
/// `pt`.
pub open spec fn avoiding_place(pipes: Seq<Seq<Point>>, pt: Point, q: int) -> int
    decreases pipes.len(),
{
    if pipes.len() == 0 {
        0
    } else if !pipes.last().contains(pt) && q == pipes_avoiding(pipes.drop_last(), pt).len() {
        pipes.len() - 1
    } else {
        avoiding_place(pipes.drop_last(), pt, q)
    }
}

/// Each pipe that does not pass through `pt` is kept, in its order.
proof fn lemma_avoiding(pipes: Seq<Seq<Point>>, pt: Point)
    ensures
        pipes_avoiding(pipes, pt).len() <= pipes.len(),
        forall|q: int|
            0 <= q < pipes_avoiding(pipes, pt).len() ==> 0 <= #[trigger] avoiding_place(pipes, pt, q)
                < pipes.len() && pipes_avoiding(pipes, pt)[q] == pipes[avoiding_place(pipes, pt, q)]
                && !pipes[avoiding_place(pipes, pt, q)].contains(pt),
        forall|q: int, r: int|
            0 <= q < r < pipes_avoiding(pipes, pt).len() ==> #[trigger] avoiding_place(pipes, pt, q)
                < #[trigger] avoiding_place(pipes, pt, r),
    decreases pipes.len(),
{
    if pipes.len() > 0 {
        let rest = pipes.drop_last();
        lemma_avoiding(rest, pt);
        let kept = pipes_avoiding(rest, pt);
        assert forall|q: int| 0 <= q < pipes_avoiding(pipes, pt).len() implies 0 <= #[trigger] avoiding_place(
            pipes,
            pt,
            q,
        ) < pipes.len() && pipes_avoiding(pipes, pt)[q] == pipes[avoiding_place(pipes, pt, q)]
            && !pipes[avoiding_place(pipes, pt, q)].contains(pt) by {
            if q < kept.len() {
                assert(0 <= avoiding_place(rest, pt, q) < rest.len());
                assert(rest[avoiding_place(rest, pt, q)] == pipes[avoiding_place(rest, pt, q)]);
            }
        }
        assert forall|q: int, r: int| 0 <= q < r < pipes_avoiding(pipes, pt).len() implies #[trigger] avoiding_place(
            pipes,
            pt,
            q,
        ) < #[trigger] avoiding_place(pipes, pt, r) by {
            assert(0 <= avoiding_place(rest, pt, q) < rest.len());
            if r < kept.len() {
                assert(avoiding_place(rest, pt, q) < avoiding_place(rest, pt, r));
            }
        }
    }
}

/// Pipes that keep order still do when the object on a cell through which
/// none of them passes changes.
pub proof fn lemma_object_changed(
    objects: Map<Point, PlaneObj>,
    changed: Map<Point, PlaneObj>,
    pipes: Seq<Seq<Point>>,
    pt: Point,
)
    requires
        tidy(objects, pipes),
        forall|c: Point| c != pt ==> changed.contains_key(c) == objects.contains_key(c),
        forall|c: Point| c != pt && objects.contains_key(c) ==> changed[c] == objects[c],
        forall|p: int| 0 <= p < pipes.len() ==> !(#[trigger] pipes[p]).contains(pt),
    ensures
        tidy(changed, pipes),
{
    assert forall|p: int, k: int| 0 <= p < pipes.len() && 0 <= k < pipes[p].len() implies #[trigger] pipes[p][k]
        != pt by {
        assert(!pipes[p].contains(pt));
    }
    assert forall|p: int| 0 <= p < pipes.len() implies steps_ok(changed, #[trigger] pipes[p]) by {
        assert(steps_ok(objects, pipes[p]));
        assert forall|k: int| 0 <= k < pipes[p].len() implies !wall_cell(changed, #[trigger] pipes[p][k]) by {
            assert(pipes[p][k] != pt);
            assert(!wall_cell(objects, pipes[p][k]));
        }
    }
    assert forall|p: int, k: int| 0 <= p < pipes.len() && 0 < k < pipes[p].len() - 1 implies !node_at(
        changed,
        #[trigger] pipes[p][k],
    ) by {
        assert(!node_at(objects, pipes[p][k]));
    }
    assert forall|p: int, k: int|
        0 <= p < pipes.len() && 0 < k < pipes[p].len() - 1 && cross_at(changed, #[trigger] pipes[p][k]) implies straight(
        pipes[p],
        k,
    ) by {
        assert(cross_at(objects, pipes[p][k]));
    }
    assert forall|c: Point, v: bool, p: int, k: int, q: int, j: int|
        !node_at(changed, c) && 0 <= p < pipes.len() && 0 <= q < pipes.len() && #[trigger] counts(
            changed,
            pipes[p],
            k,
            c,
            v,
        ) && #[trigger] counts(changed, pipes[q], j, c, v) implies p == q && k == j by {
        assert(pipes[p][k] != pt);
        assert(counts(objects, pipes[p], k, c, v));
        assert(counts(objects, pipes[q], j, c, v));
    }
}

/// Pipes that keep order still do when an object is put on a cell and the
/// pipes that pass through that cell are taken away.
pub proof fn lemma_place_keeps_tidy(
    objects: Map<Point, PlaneObj>,
    pipes: Seq<Seq<Point>>,
    pt: Point,
    obj: PlaneObj,
)
    requires
        tidy(objects, pipes),
    ensures
        tidy(objects.insert(pt, obj), pipes_avoiding(pipes, pt)),
{
    let kept = pipes_avoiding(pipes, pt);
    lemma_avoiding(pipes, pt);
    let f = |q: int| avoiding_place(pipes, pt, q);
    lemma_embedded(objects, kept, pipes, f);
    assert forall|p: int| 0 <= p < kept.len() implies !(#[trigger] kept[p]).contains(pt) by {
        assert(kept[p] == pipes[avoiding_place(pipes, pt, p)]);
    }
    lemma_object_changed(objects, objects.insert(pt, obj), kept, pt);
}

impl PlaneModel {
    /// True if the pipes keep order: each has two points or more, goes
    /// from cell to neighbouring cell and over no wall; a node is the first
    /// or the last point of each pipe that holds it; a pipe that passes over
    /// a crossing runs straight through it; no other cell counts at two
    /// places for edges of one orientation; and no two steps join the same
    /// two cells.
    pub open spec fn tidy(self) -> bool {
        tidy(self.objects, self.pipes)
    }

    /// True if no pipe passes through the cell.
    pub open spec fn untouched(self, pt: Point) -> bool {
        forall|p: int| 0 <= p < self.pipes.len() ==> !(#[trigger] self.pipes[p]).contains(pt)
    }
}

/// On pipes that keep order, toggling an edge twice in a row gives back
/// the pipes as they were, up to the order of the pipes and the way round of
/// each, and they still keep order. The second toggle is accepted exactly if
/// the first was, and no object changes.
pub proof fn lemma_tidy_toggle_twice(g: PlaneModel, a: Point, b: Point)
    requires
        g.tidy(),
        countable(g.pipes),
    ensures
        g.toggled(a, b).tidy(),
        (g.toggled(a, b).toggle(a, b) is Some) == (g.toggle(a, b) is Some),
        crate::plane::links::same_pipes(g.toggled(a, b).toggled(a, b).pipes, g.pipes),
        crate::plane::links::same_links(g.toggled(a, b).toggled(a, b).pipes, g.pipes),
        g.toggled(a, b).toggled(a, b).objects == g.objects,
        g.toggled(a, b).toggled(a, b).rect == g.rect,
{
    lemma_tidy_at(g.objects, g.pipes, a, b);
    crate::plane::links::lemma_toggle_twice(g, a, b);
    lemma_toggle_keeps_tidy(g, a, b);
}

} // verus!
