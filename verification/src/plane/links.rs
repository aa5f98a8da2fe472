//! What toggling an edge twice does to the pipes of a grid.

use crate::plane::{
    first_fit, first_fit_in, first_joining, joins, piece_at, piece_fits, piece_kind, pipes_ok,
    swap_removed, toggled_at_end, toggled_at_middle, toggled_at_start, toggled_end_start,
    toggled_pipes, PipePiece, PlaneModel, PlaneObj,
};
use crate::point::Point;
use vstd::prelude::*;

verus! {

/// True if a node stands on the cell.
pub open spec fn node_at(objects: Map<Point, PlaneObj>, c: Point) -> bool {
    objects.contains_key(c) && objects[c].spec_is_node()
}

/// True if a crossing is on the cell.
pub open spec fn cross_at(objects: Map<Point, PlaneObj>, c: Point) -> bool {
    objects.contains_key(c) && objects[c] == PlaneObj::Cross
}

/// True if point `k` of `pipe` is the cell `c` and counts for an edge of
/// the given orientation.
pub open spec fn counts(
    objects: Map<Point, PlaneObj>,
    pipe: Seq<Point>,
    k: int,
    c: Point,
    vertical: bool,
) -> bool {
    0 <= k < pipe.len() && piece_fits(pipe, k, c, cross_at(objects, c), vertical)
}

/// True if the step from point `k` of `pipe` to the next joins `a` and `b`.
pub open spec fn link_at(pipe: Seq<Point>, k: int, a: Point, b: Point) -> bool {
    0 <= k < pipe.len() - 1 && ((pipe[k] == a && pipe[k + 1] == b) || (pipe[k] == b && pipe[k + 1]
        == a))
}

/// True if some step of `pipe` joins `a` and `b`.
pub open spec fn pipe_links(pipe: Seq<Point>, a: Point, b: Point) -> bool {
    exists|k: int| link_at(pipe, k, a, b)
}

/// True if some step of some pipe joins `a` and `b`.
pub open spec fn linked(pipes: Seq<Seq<Point>>, a: Point, b: Point) -> bool {
    exists|p: int| 0 <= p < pipes.len() && pipe_links(#[trigger] pipes[p], a, b)
}

/// True if the two lists of pipes join the same pairs of cells.
pub open spec fn same_links(one: Seq<Seq<Point>>, other: Seq<Seq<Point>>) -> bool {
    forall|a: Point, b: Point| linked(one, a, b) == linked(other, a, b)
}

/// True if the pipes and their points can be counted by a `usize`.
pub open spec fn countable(pipes: Seq<Seq<Point>>) -> bool {
    &&& pipes.len() <= usize::MAX
    &&& forall|p: int| 0 <= p < pipes.len() ==> (#[trigger] pipes[p]).len() <= usize::MAX
}

/// No point of `pipe` at or after `from` fits.
proof fn lemma_no_fit_in(pipe: Seq<Point>, from: int, c: Point, cross: bool, vertical: bool)
    requires
        0 <= from,
        forall|j: int| from <= j < pipe.len() ==> !piece_fits(pipe, j, c, cross, vertical),
    ensures
        first_fit_in(pipe, from, c, cross, vertical) is None,
    decreases pipe.len() - from,
{
    if from < pipe.len() {
        lemma_no_fit_in(pipe, from + 1, c, cross, vertical);
    }
}

/// The first point of `pipe` that fits is found.
proof fn lemma_fit_in(pipe: Seq<Point>, from: int, c: Point, cross: bool, vertical: bool, k: int)
    requires
        0 <= from <= k < pipe.len(),
        piece_fits(pipe, k, c, cross, vertical),
        forall|j: int| from <= j < k ==> !piece_fits(pipe, j, c, cross, vertical),
    ensures
        first_fit_in(pipe, from, c, cross, vertical) == Some(k),
    decreases k - from,
{
    if from < k {
        lemma_fit_in(pipe, from + 1, c, cross, vertical, k);
    }
}

/// What `first_fit_in` finds fits, and nothing before it does.
proof fn lemma_fit_in_found(pipe: Seq<Point>, from: int, c: Point, cross: bool, vertical: bool)
    requires
        0 <= from,
    ensures
        match first_fit_in(pipe, from, c, cross, vertical) {
            Some(k) => from <= k < pipe.len() && piece_fits(pipe, k, c, cross, vertical),
            None => forall|j: int| from <= j < pipe.len() ==> !piece_fits(pipe, j, c, cross, vertical),
        },
    decreases pipe.len() - from,
{
    if from < pipe.len() && !piece_fits(pipe, from, c, cross, vertical) {
        lemma_fit_in_found(pipe, from + 1, c, cross, vertical);
    }
}

/// Where no point of any pipe at or after `from` fits, none is found.
proof fn lemma_no_fit(pipes: Seq<Seq<Point>>, from: int, c: Point, cross: bool, vertical: bool)
    requires
        0 <= from,
        forall|q: int, j: int|
            from <= q < pipes.len() && 0 <= j < pipes[q].len() ==> !#[trigger] piece_fits(
                pipes[q],
                j,
                c,
                cross,
                vertical,
            ),
    ensures
        first_fit(pipes, from, c, cross, vertical) is None,
    decreases pipes.len() - from,
{
    if from < pipes.len() {
        assert forall|j: int| 0 <= j < pipes[from].len() implies !piece_fits(
            pipes[from],
            j,
            c,
            cross,
            vertical,
        ) by {}
        lemma_no_fit_in(pipes[from], 0, c, cross, vertical);
        lemma_no_fit(pipes, from + 1, c, cross, vertical);
    }
}

/// Where only point `k` of pipe `p` fits, that point is found.
proof fn lemma_fit(
    pipes: Seq<Seq<Point>>,
    from: int,
    c: Point,
    cross: bool,
    vertical: bool,
    p: int,
    k: int,
)
    requires
        0 <= from <= p < pipes.len(),
        0 <= k < pipes[p].len(),
        piece_fits(pipes[p], k, c, cross, vertical),
        forall|q: int, j: int|
            from <= q < pipes.len() && 0 <= j < pipes[q].len() && #[trigger] piece_fits(
                pipes[q],
                j,
                c,
                cross,
                vertical,
            ) ==> q == p && j == k,
    ensures
        first_fit(pipes, from, c, cross, vertical) == Some((p, k)),
    decreases p - from,
{
    if from < p {
        assert forall|j: int| 0 <= j < pipes[from].len() implies !piece_fits(
            pipes[from],
            j,
            c,
            cross,
            vertical,
        ) by {}
        lemma_no_fit_in(pipes[from], 0, c, cross, vertical);
        lemma_fit(pipes, from + 1, c, cross, vertical, p, k);
    } else {
        assert forall|j: int| 0 <= j < k implies !piece_fits(pipes[p], j, c, cross, vertical) by {}
        lemma_fit_in(pipes[p], 0, c, cross, vertical, k);
    }
}

/// What `first_fit` finds fits; where it finds nothing, nothing fits.
proof fn lemma_fit_found(pipes: Seq<Seq<Point>>, from: int, c: Point, cross: bool, vertical: bool)
    requires
        0 <= from,
    ensures
        match first_fit(pipes, from, c, cross, vertical) {
            Some((p, k)) => from <= p < pipes.len() && 0 <= k < pipes[p].len() && piece_fits(
                pipes[p],
                k,
                c,
                cross,
                vertical,
            ),
            None => forall|q: int, j: int|
                from <= q < pipes.len() && 0 <= j < pipes[q].len() ==> !#[trigger] piece_fits(
                pipes[q],
                    j,
                    c,
                    cross,
                    vertical,
                ),
        },
    decreases pipes.len() - from,
{
    if from < pipes.len() {
        lemma_fit_in_found(pipes[from], 0, c, cross, vertical);
        if first_fit_in(pipes[from], 0, c, cross, vertical) is None {
            lemma_fit_found(pipes, from + 1, c, cross, vertical);
        }
    }
}

/// True if the cell `c` counts nowhere in the pipes for an edge of the
/// given orientation.
pub open spec fn counts_nowhere(
    objects: Map<Point, PlaneObj>,
    pipes: Seq<Seq<Point>>,
    c: Point,
    vertical: bool,
) -> bool {
    forall|q: int, j: int| 0 <= q < pipes.len() ==> !#[trigger] counts(objects, pipes[q], j, c, vertical)
}

/// True if the cell `c` counts at point `k` of pipe `p` and nowhere else.
pub open spec fn counts_only_at(
    objects: Map<Point, PlaneObj>,
    pipes: Seq<Seq<Point>>,
    c: Point,
    vertical: bool,
    p: int,
    k: int,
) -> bool {
    &&& 0 <= p < pipes.len()
    &&& counts(objects, pipes[p], k, c, vertical)
    &&& forall|q: int, j: int|
        0 <= q < pipes.len() && #[trigger] counts(objects, pipes[q], j, c, vertical) ==> q == p && j
            == k
}

/// A cell that counts nowhere meets the pipes as a free cell, or as a node.
pub proof fn lemma_piece_free(
    objects: Map<Point, PlaneObj>,
    pipes: Seq<Seq<Point>>,
    c: Point,
    vertical: bool,
)
    requires
        node_at(objects, c) || counts_nowhere(objects, pipes, c, vertical),
    ensures
        piece_at(objects, pipes, c, vertical) == PipePiece::EmptyOrNode(node_at(objects, c)),
{
    if !node_at(objects, c) {
        assert forall|q: int, j: int| 0 <= q < pipes.len() && 0 <= j < pipes[q].len() implies !#[trigger] piece_fits(
                pipes[q],
            j,
            c,
            cross_at(objects, c),
            vertical,
        ) by {
            assert(!counts(objects, pipes[q], j, c, vertical));
        }
        lemma_no_fit(pipes, 0, c, cross_at(objects, c), vertical);
    }
}

/// A cell without a node that counts at one place only meets the pipes
/// there.
pub proof fn lemma_piece_there(
    objects: Map<Point, PlaneObj>,
    pipes: Seq<Seq<Point>>,
    c: Point,
    vertical: bool,
    p: int,
    k: int,
)
    requires
        !node_at(objects, c),
        counts_only_at(objects, pipes, c, vertical, p, k),
    ensures
        piece_at(objects, pipes, c, vertical) == piece_kind(pipes[p].len() as int, p, k),
{
    assert forall|q: int, j: int|
        0 <= q < pipes.len() && 0 <= j < pipes[q].len() && #[trigger] piece_fits(
                pipes[q],
            j,
            c,
            cross_at(objects, c),
            vertical,
        ) implies q == p && j == k by {
        assert(counts(objects, pipes[q], j, c, vertical));
    }
    lemma_fit(pipes, 0, c, cross_at(objects, c), vertical, p, k);
}

/// What the way in which a cell meets the pipes says of where it counts.
pub proof fn lemma_piece_found(
    objects: Map<Point, PlaneObj>,
    pipes: Seq<Seq<Point>>,
    c: Point,
    vertical: bool,
)
    requires
        pipes_ok(pipes),
        countable(pipes),
    ensures
        match piece_at(objects, pipes, c, vertical) {
            PipePiece::EmptyOrNode(node) => node == node_at(objects, c) && (node || counts_nowhere(
                objects,
                pipes,
                c,
                vertical,
            )),
            PipePiece::Start(p) => !node_at(objects, c) && 0 <= p < pipes.len() && counts(
                objects,
                pipes[p as int],
                0,
                c,
                vertical,
            ),
            PipePiece::Middle(p, k) => !node_at(objects, c) && 0 <= p < pipes.len() && 0 < k && k + 1
                < pipes[p as int].len() && counts(objects, pipes[p as int], k as int, c, vertical),
            PipePiece::End(p) => !node_at(objects, c) && 0 <= p < pipes.len() && counts(
                objects,
                pipes[p as int],
                pipes[p as int].len() - 1,
                c,
                vertical,
            ),
        },
{
    if !node_at(objects, c) {
        lemma_fit_found(pipes, 0, c, cross_at(objects, c), vertical);
        match first_fit(pipes, 0, c, cross_at(objects, c), vertical) {
            Some((p, k)) => {
                assert(pipes[p].len() >= 2);
            },
            None => {
                assert forall|q: int, j: int| 0 <= q < pipes.len() implies !#[trigger] counts(
                    objects,
                    pipes[q],
                    j,
                    c,
                    vertical,
                ) by {}
            },
        }
    }
}

/// True if the pipe runs straight through its point `k`.
pub open spec fn straight(pipe: Seq<Point>, k: int) -> bool {
    (pipe[k - 1].x == pipe[k].x) == (pipe[k + 1].x == pipe[k].x)
}

/// True if the pipes keep order at the cell `c`, for an edge of the given
/// orientation: a node is the first or the last point of each pipe that
/// holds it; any other cell counts at one place at most; and a pipe that
/// passes over a crossing runs straight through it.
pub open spec fn tidy_cell(
    objects: Map<Point, PlaneObj>,
    pipes: Seq<Seq<Point>>,
    c: Point,
    vertical: bool,
) -> bool {
    if node_at(objects, c) {
        forall|p: int, k: int|
            0 <= p < pipes.len() && 0 <= k < pipes[p].len() && #[trigger] pipes[p][k] == c ==> k == 0
                || k == pipes[p].len() - 1
    } else {
        &&& forall|p: int, k: int, q: int, j: int|
            0 <= p < pipes.len() && 0 <= q < pipes.len() && #[trigger] counts(
                objects,
                pipes[p],
                k,
                c,
                vertical,
            ) && #[trigger] counts(objects, pipes[q], j, c, vertical) ==> p == q && k == j
        &&& cross_at(objects, c) ==> forall|p: int, k: int|
            0 <= p < pipes.len() && 0 < k < pipes[p].len() - 1 && #[trigger] pipes[p][k] == c
                ==> straight(pipes[p], k)
    }
}

/// True if the pipes keep order where the edge between `a` and `b` lies:
/// they keep order at both cells, and at most one step of one pipe joins
/// the two.
pub open spec fn tidy_at(objects: Map<Point, PlaneObj>, pipes: Seq<Seq<Point>>, a: Point, b: Point) -> bool {
    &&& pipes_ok(pipes)
    &&& countable(pipes)
    &&& tidy_cell(objects, pipes, a, a.x == b.x)
    &&& tidy_cell(objects, pipes, b, a.x == b.x)
    &&& forall|p: int, k: int, q: int, j: int|
        0 <= p < pipes.len() && 0 <= q < pipes.len() && #[trigger] link_at(pipes[p], k, a, b)
            && #[trigger] link_at(pipes[q], j, a, b) ==> p == q && k == j
}

/// The pipes after the edge from `a` to `b` was toggled on the pipes as
/// they are; `None` where the pipes refuse it.
pub open spec fn retoggled(
    objects: Map<Point, PlaneObj>,
    pipes: Seq<Seq<Point>>,
    a: Point,
    b: Point,
) -> Option<Seq<Seq<Point>>> {
    toggled_pipes(
        pipes,
        piece_at(objects, pipes, a, a.x == b.x),
        piece_at(objects, pipes, b, a.x == b.x),
        a,
        b,
    )
}

/// No pipe at or after `from` consists of the two cells.
proof fn lemma_no_joining(pipes: Seq<Seq<Point>>, from: int, a: Point, b: Point)
    requires
        0 <= from,
        forall|q: int| from <= q < pipes.len() ==> !joins(#[trigger] pipes[q], a, b),
    ensures
        first_joining(pipes, from, a, b) is None,
    decreases pipes.len() - from,
{
    if from < pipes.len() {
        lemma_no_joining(pipes, from + 1, a, b);
    }
}

/// The first pipe that consists of the two cells is found.
proof fn lemma_joining(pipes: Seq<Seq<Point>>, from: int, a: Point, b: Point, p: int)
    requires
        0 <= from <= p < pipes.len(),
        joins(pipes[p], a, b),
        forall|q: int| from <= q < p ==> !joins(#[trigger] pipes[q], a, b),
    ensures
        first_joining(pipes, from, a, b) == Some(p),
    decreases p - from,
{
    if from < p {
        lemma_joining(pipes, from + 1, a, b, p);
    }
}

/// What `first_joining` finds consists of the two cells; where it finds
/// nothing, no pipe does.
pub proof fn lemma_joining_found(pipes: Seq<Seq<Point>>, from: int, a: Point, b: Point)
    requires
        0 <= from,
    ensures
        match first_joining(pipes, from, a, b) {
            Some(p) => from <= p < pipes.len() && joins(pipes[p], a, b),
            None => forall|q: int| from <= q < pipes.len() ==> !joins(#[trigger] pipes[q], a, b),
        },
    decreases pipes.len() - from,
{
    if from < pipes.len() && !joins(pipes[from], a, b) {
        lemma_joining_found(pipes, from + 1, a, b);
    }
}

/// A pipe that was laid between two cells of which none counts anywhere
/// goes again when its edge is toggled once more.
proof fn lemma_new_pipe(objects: Map<Point, PlaneObj>, pipes: Seq<Seq<Point>>, a: Point, b: Point)
    requires
        a != b,
        tidy_at(objects, pipes, a, b),
        piece_at(objects, pipes, a, a.x == b.x) is EmptyOrNode,
        piece_at(objects, pipes, b, a.x == b.x) is EmptyOrNode,
        !(node_at(objects, a) && node_at(objects, b)) || first_joining(pipes, 0, a, b) is None,
    ensures
        retoggled(objects, pipes.push(seq![a, b]), a, b) == Some(pipes),
{
    let v = a.x == b.x;
    let n = pipes.len() as int;
    let one = pipes.push(seq![a, b]);
    lemma_piece_found(objects, pipes, a, v);
    lemma_piece_found(objects, pipes, b, v);
    if node_at(objects, a) {
        lemma_piece_free(objects, one, a, v);
    } else {
        assert(counts(objects, one[n], 0, a, v));
        assert forall|q: int, j: int| 0 <= q < one.len() && #[trigger] counts(objects, one[q], j, a, v) implies q
            == n && j == 0 by {
            if q < n {
                assert(counts(objects, pipes[q], j, a, v));
            }
        }
        lemma_piece_there(objects, one, a, v, n, 0);
    }
    if node_at(objects, b) {
        lemma_piece_free(objects, one, b, v);
    } else {
        assert(counts(objects, one[n], 1, b, v));
        assert forall|q: int, j: int| 0 <= q < one.len() && #[trigger] counts(objects, one[q], j, b, v) implies q
            == n && j == 1 by {
            if q < n {
                assert(counts(objects, pipes[q], j, b, v));
            }
        }
        lemma_piece_there(objects, one, b, v, n, 1);
    }
    if node_at(objects, a) && node_at(objects, b) {
        lemma_joining_found(pipes, 0, a, b);
        assert forall|q: int| 0 <= q < n implies !joins(#[trigger] one[q], a, b) by {
            assert(one[q] == pipes[q]);
        }
        lemma_joining(one, 0, a, b, n);
    }
    assert(swap_removed(one, n) =~= pipes);
}

/// A pipe that has grown by a cell at its start loses that cell again when
/// the edge is toggled once more.
#[verifier::rlimit(60)]
proof fn lemma_grown_at_start(
    objects: Map<Point, PlaneObj>,
    pipes: Seq<Seq<Point>>,
    a: Point,
    b: Point,
    p: int,
    c: Point,
)
    requires
        a.adjacent(b),
        tidy_at(objects, pipes, a, b),
        0 <= p < pipes.len(),
        (c == a && pipes[p][0] == b) || (c == b && pipes[p][0] == a),
        counts(objects, pipes[p], 0, pipes[p][0], a.x == b.x),
        !node_at(objects, pipes[p][0]),
        node_at(objects, c) || counts_nowhere(objects, pipes, c, a.x == b.x),
        !(node_at(objects, c) && pipes[p][1] == c),
    ensures
        retoggled(objects, pipes.update(p, pipes[p].insert(0, c)), a, b) == Some(pipes),
{
    let v = a.x == b.x;
    let old_pipe = pipes[p];
    let new_pipe = old_pipe.insert(0, c);
    let one = pipes.update(p, new_pipe);
    let x = old_pipe[0];
    assert(one[p] == new_pipe);
    assert(new_pipe.len() == old_pipe.len() + 1);
    assert(new_pipe[0] == c && new_pipe[1] == x);
    assert forall|j: int| 1 <= j < new_pipe.len() implies new_pipe[j] == old_pipe[j - 1] by {}
    // The old first point is now the second.
    assert(counts(objects, new_pipe, 1, x, v));
    assert forall|q: int, j: int| 0 <= q < one.len() && #[trigger] counts(objects, one[q], j, x, v) implies q
        == p && j == 1 by {
        if q != p {
            assert(one[q] == pipes[q]);
            assert(counts(objects, pipes[q], j, x, v));
            assert(counts(objects, pipes[p], 0, x, v));
        } else if j != 1 {
            assert(j >= 2);
            assert(counts(objects, pipes[p], j - 1, x, v));
            assert(counts(objects, pipes[p], 0, x, v));
        }
    }
    lemma_piece_there(objects, one, x, v, p, 1);
    if node_at(objects, c) {
        lemma_piece_free(objects, one, c, v);
    } else {
        assert(counts(objects, new_pipe, 0, c, v));
        assert forall|q: int, j: int| 0 <= q < one.len() && #[trigger] counts(objects, one[q], j, c, v) implies q
            == p && j == 0 by {
            if q != p {
                assert(one[q] == pipes[q]);
                assert(counts(objects, pipes[q], j, c, v));
            } else if j != 0 {
                if j >= 2 {
                    assert(counts(objects, pipes[p], j - 1, c, v));
                }
            }
        }
        lemma_piece_there(objects, one, c, v, p, 0);
    }
    assert(new_pipe.remove(0) =~= old_pipe);
    assert(one.update(p, old_pipe) =~= pipes);
}

/// A pipe that has grown by a cell at its end loses that cell again when
/// the edge is toggled once more.
#[verifier::rlimit(60)]
proof fn lemma_grown_at_end(
    objects: Map<Point, PlaneObj>,
    pipes: Seq<Seq<Point>>,
    a: Point,
    b: Point,
    p: int,
    c: Point,
)
    requires
        a.adjacent(b),
        tidy_at(objects, pipes, a, b),
        0 <= p < pipes.len(),
        (c == a && pipes[p].last() == b) || (c == b && pipes[p].last() == a),
        counts(objects, pipes[p], pipes[p].len() - 1, pipes[p].last(), a.x == b.x),
        !node_at(objects, pipes[p].last()),
        node_at(objects, c) || counts_nowhere(objects, pipes, c, a.x == b.x),
        !(node_at(objects, c) && pipes[p].len() == 2 && pipes[p][0] == c),
    ensures
        retoggled(objects, pipes.update(p, pipes[p].push(c)), a, b) == Some(pipes),
{
    let v = a.x == b.x;
    let old_pipe = pipes[p];
    let new_pipe = old_pipe.push(c);
    let one = pipes.update(p, new_pipe);
    let x = old_pipe.last();
    let m = old_pipe.len() as int;
    assert(one[p] == new_pipe);
    assert(counts(objects, new_pipe, m - 1, x, v));
    assert forall|q: int, j: int| 0 <= q < one.len() && #[trigger] counts(objects, one[q], j, x, v) implies q
        == p && j == m - 1 by {
        if q != p {
            assert(one[q] == pipes[q]);
            assert(counts(objects, pipes[q], j, x, v));
            assert(counts(objects, pipes[p], m - 1, x, v));
        } else if j != m - 1 {
            assert(j < m);
            assert(counts(objects, pipes[p], j, x, v));
            assert(counts(objects, pipes[p], m - 1, x, v));
        }
    }
    lemma_piece_there(objects, one, x, v, p, m - 1);
    if node_at(objects, c) {
        lemma_piece_free(objects, one, c, v);
    } else {
        assert(counts(objects, new_pipe, m, c, v));
        assert forall|q: int, j: int| 0 <= q < one.len() && #[trigger] counts(objects, one[q], j, c, v) implies q
            == p && j == m by {
            if q != p {
                assert(one[q] == pipes[q]);
                assert(counts(objects, pipes[q], j, c, v));
            } else if j != m {
                assert(counts(objects, pipes[p], j, c, v));
            }
        }
        lemma_piece_there(objects, one, c, v, p, m);
    }
    assert(new_pipe.drop_last() =~= old_pipe);
    assert(one.update(p, old_pipe) =~= pipes);
}

/// A pipe that has lost its first point gets it back when the edge is
/// toggled once more.
#[verifier::rlimit(60)]
proof fn lemma_shrunk_at_start(
    objects: Map<Point, PlaneObj>,
    pipes: Seq<Seq<Point>>,
    a: Point,
    b: Point,
    p: int,
)
    requires
        a.adjacent(b),
        tidy_at(objects, pipes, a, b),
        0 <= p < pipes.len(),
        pipes[p].len() >= 3,
        (pipes[p][0] == a && pipes[p][1] == b) || (pipes[p][0] == b && pipes[p][1] == a),
        !node_at(objects, pipes[p][1]),
        counts(objects, pipes[p], 1, pipes[p][1], a.x == b.x),
        node_at(objects, pipes[p][0]) || counts(objects, pipes[p], 0, pipes[p][0], a.x == b.x),
    ensures
        retoggled(objects, pipes.update(p, pipes[p].remove(0)), a, b) == Some(pipes),
{
    let v = a.x == b.x;
    let old_pipe = pipes[p];
    let new_pipe = old_pipe.remove(0);
    let one = pipes.update(p, new_pipe);
    let c = old_pipe[0];
    let x = old_pipe[1];
    assert(one[p] == new_pipe);
    assert(new_pipe.len() == old_pipe.len() - 1);
    assert forall|j: int| 0 <= j < new_pipe.len() implies new_pipe[j] == old_pipe[j + 1] by {}
    assert(link_at(old_pipe, 0, a, b));
    if cross_at(objects, x) {
        assert(straight(old_pipe, 1));
    }
    assert(counts(objects, new_pipe, 0, x, v));
    assert forall|q: int, j: int| 0 <= q < one.len() && #[trigger] counts(objects, one[q], j, x, v) implies q
        == p && j == 0 by {
        if q != p {
            assert(one[q] == pipes[q]);
            assert(counts(objects, pipes[q], j, x, v));
            assert(counts(objects, pipes[p], 1, x, v));
        } else if j != 0 {
            assert(counts(objects, pipes[p], j + 1, x, v));
            assert(counts(objects, pipes[p], 1, x, v));
        }
    }
    lemma_piece_there(objects, one, x, v, p, 0);
    if node_at(objects, c) {
        lemma_piece_free(objects, one, c, v);
        if new_pipe[1] == c {
            assert(pipes[p][2] == c);
            assert(old_pipe.len() == 3);
            assert(link_at(old_pipe, 1, a, b));
        }
    } else {
        assert forall|q: int, j: int| 0 <= q < one.len() implies !#[trigger] counts(objects, one[q], j, c, v) by {
            if counts(objects, one[q], j, c, v) {
                if q != p {
                    assert(one[q] == pipes[q]);
                    assert(counts(objects, pipes[q], j, c, v));
                    assert(counts(objects, pipes[p], 0, c, v));
                } else {
                    assert(j >= 1);
                    assert(counts(objects, pipes[p], j + 1, c, v));
                    assert(counts(objects, pipes[p], 0, c, v));
                }
            }
        }
        lemma_piece_free(objects, one, c, v);
    }
    assert(new_pipe.insert(0, c) =~= old_pipe);
    assert(one.update(p, old_pipe) =~= pipes);
}

/// A pipe that has lost its last point gets it back when the edge is
/// toggled once more.
#[verifier::rlimit(60)]
proof fn lemma_shrunk_at_end(
    objects: Map<Point, PlaneObj>,
    pipes: Seq<Seq<Point>>,
    a: Point,
    b: Point,
    p: int,
)
    requires
        a.adjacent(b),
        tidy_at(objects, pipes, a, b),
        0 <= p < pipes.len(),
        pipes[p].len() >= 3,
        (pipes[p].last() == a && pipes[p][pipes[p].len() - 2] == b) || (pipes[p].last() == b
            && pipes[p][pipes[p].len() - 2] == a),
        !node_at(objects, pipes[p][pipes[p].len() - 2]),
        counts(objects, pipes[p], pipes[p].len() - 2, pipes[p][pipes[p].len() - 2], a.x == b.x),
        node_at(objects, pipes[p].last()) || counts(
            objects,
            pipes[p],
            pipes[p].len() - 1,
            pipes[p].last(),
            a.x == b.x,
        ),
    ensures
        retoggled(objects, pipes.update(p, pipes[p].drop_last()), a, b) == Some(pipes),
{
    let v = a.x == b.x;
    let old_pipe = pipes[p];
    let new_pipe = old_pipe.drop_last();
    let one = pipes.update(p, new_pipe);
    let m = old_pipe.len() as int;
    let c = old_pipe[m - 1];
    let x = old_pipe[m - 2];
    assert(one[p] == new_pipe);
    assert(link_at(old_pipe, m - 2, a, b));
    assert(counts(objects, new_pipe, m - 2, x, v));
    assert forall|q: int, j: int| 0 <= q < one.len() && #[trigger] counts(objects, one[q], j, x, v) implies q
        == p && j == m - 2 by {
        if q != p {
            assert(one[q] == pipes[q]);
            assert(counts(objects, pipes[q], j, x, v));
            assert(counts(objects, pipes[p], m - 2, x, v));
        } else if j != m - 2 {
            assert(counts(objects, pipes[p], j, x, v));
            assert(counts(objects, pipes[p], m - 2, x, v));
        }
    }
    lemma_piece_there(objects, one, x, v, p, m - 2);
    if node_at(objects, c) {
        lemma_piece_free(objects, one, c, v);
        if new_pipe.len() == 2 && new_pipe[0] == c {
            assert(pipes[p][0] == c);
            assert(link_at(old_pipe, 0, a, b));
        }
    } else {
        assert forall|q: int, j: int| 0 <= q < one.len() implies !#[trigger] counts(objects, one[q], j, c, v) by {
            if counts(objects, one[q], j, c, v) {
                if q != p {
                    assert(one[q] == pipes[q]);
                    assert(counts(objects, pipes[q], j, c, v));
                    assert(counts(objects, pipes[p], m - 1, c, v));
                } else {
                    assert(counts(objects, pipes[p], j, c, v));
                    assert(counts(objects, pipes[p], m - 1, c, v));
                }
            }
        }
        lemma_piece_free(objects, one, c, v);
    }
    assert(new_pipe.push(c) =~= old_pipe);
    assert(one.update(p, old_pipe) =~= pipes);
}

/// A pipe that was cut in two is one again when the edge is toggled once
/// more.
#[verifier::rlimit(60)]
proof fn lemma_cut(
    objects: Map<Point, PlaneObj>,
    pipes: Seq<Seq<Point>>,
    a: Point,
    b: Point,
    p: int,
    lo: int,
)
    requires
        a.adjacent(b),
        tidy_at(objects, pipes, a, b),
        0 <= p < pipes.len(),
        0 < lo,
        lo + 2 < pipes[p].len(),
        (pipes[p][lo] == a && pipes[p][lo + 1] == b) || (pipes[p][lo] == b && pipes[p][lo + 1] == a),
        !node_at(objects, a),
        !node_at(objects, b),
        counts(objects, pipes[p], lo, pipes[p][lo], a.x == b.x),
        counts(objects, pipes[p], lo + 1, pipes[p][lo + 1], a.x == b.x),
    ensures
        retoggled(
            objects,
            pipes.update(p, pipes[p].subrange(0, lo + 1)).push(
                pipes[p].subrange(lo + 1, pipes[p].len() as int),
            ),
            a,
            b,
        ) == Some(pipes),
{
    let v = a.x == b.x;
    let old_pipe = pipes[p];
    let hi = lo + 1;
    let m = old_pipe.len() as int;
    let head = old_pipe.subrange(0, hi);
    let tail = old_pipe.subrange(hi, m);
    let one = pipes.update(p, head).push(tail);
    let n = pipes.len() as int;
    let x = old_pipe[lo];
    let y = old_pipe[hi];
    assert(one[p] == head);
    assert(one[n] == tail);
    if cross_at(objects, y) {
        assert(straight(old_pipe, hi));
    }
    assert(counts(objects, head, lo, x, v));
    assert(counts(objects, tail, 0, y, v));
    assert forall|q: int, j: int| 0 <= q < one.len() && #[trigger] counts(objects, one[q], j, x, v) implies q
        == p && j == lo by {
        if q == n {
            assert(j >= 1);
            assert(counts(objects, pipes[p], hi + j, x, v));
            assert(counts(objects, pipes[p], lo, x, v));
        } else if q != p {
            assert(one[q] == pipes[q]);
            assert(counts(objects, pipes[q], j, x, v));
            assert(counts(objects, pipes[p], lo, x, v));
        } else if j != lo {
            assert(counts(objects, pipes[p], j, x, v));
            assert(counts(objects, pipes[p], lo, x, v));
        }
    }
    lemma_piece_there(objects, one, x, v, p, lo);
    assert forall|q: int, j: int| 0 <= q < one.len() && #[trigger] counts(objects, one[q], j, y, v) implies q
        == n && j == 0 by {
        if q == n {
            if j != 0 {
                assert(counts(objects, pipes[p], hi + j, y, v));
                assert(counts(objects, pipes[p], hi, y, v));
            }
        } else if q != p {
            assert(one[q] == pipes[q]);
            assert(counts(objects, pipes[q], j, y, v));
            assert(counts(objects, pipes[p], hi, y, v));
        } else {
            assert(counts(objects, pipes[p], j, y, v));
            assert(counts(objects, pipes[p], hi, y, v));
        }
    }
    lemma_piece_there(objects, one, y, v, n, 0);
    assert(head + tail =~= old_pipe);
    assert(swap_removed(one, n).update(p, old_pipe) =~= pipes);
}

/// True if the two pipes hold the same points, in the same order or in
/// opposite orders.
pub open spec fn alike(one: Seq<Point>, other: Seq<Point>) -> bool {
    one == other || one == other.reverse()
}

/// Pipes that are alike join the same cells.
proof fn lemma_alike_links(one: Seq<Point>, other: Seq<Point>, a: Point, b: Point)
    requires
        alike(one, other),
    ensures
        pipe_links(one, a, b) == pipe_links(other, a, b),
{
    if one != other {
        let m = other.len() as int;
        if pipe_links(one, a, b) {
            let k = choose|k: int| link_at(one, k, a, b);
            assert(link_at(other, m - 2 - k, a, b));
        }
        if pipe_links(other, a, b) {
            let k = choose|k: int| link_at(other, k, a, b);
            assert(link_at(one, m - 2 - k, a, b));
        }
    }
}

/// True if `pipe` is alike to one of the pipes.
pub open spec fn alike_to_one(pipe: Seq<Point>, pipes: Seq<Seq<Point>>) -> bool {
    exists|r: int| 0 <= r < pipes.len() && alike(pipe, #[trigger] pipes[r])
}

/// True if one of the pipes is alike to `pipe`.
pub open spec fn one_alike_to(pipes: Seq<Seq<Point>>, pipe: Seq<Point>) -> bool {
    exists|q: int| 0 <= q < pipes.len() && alike(#[trigger] pipes[q], pipe)
}

/// True if the two lists hold the same pipes, whatever the order of the
/// pipes and whichever way round each pipe is: they have as many pipes, and
/// each pipe of either is alike to a pipe of the other.
#[verifier::opaque]
pub open spec fn same_pipes(one: Seq<Seq<Point>>, other: Seq<Seq<Point>>) -> bool {
    &&& one.len() == other.len()
    &&& forall|q: int| 0 <= q < one.len() ==> alike_to_one(#[trigger] one[q], other)
    &&& forall|r: int| 0 <= r < other.len() ==> one_alike_to(one, #[trigger] other[r])
}

/// A list holds the same pipes as itself.
pub proof fn lemma_same_pipes_itself(pipes: Seq<Seq<Point>>)
    ensures
        same_pipes(pipes, pipes),
{
    reveal(same_pipes);
    assert forall|q: int| 0 <= q < pipes.len() implies alike_to_one(#[trigger] pipes[q], pipes)
        && one_alike_to(pipes, pipes[q]) by {
        assert(alike(pipes[q], pipes[q]));
    }
}

/// Lists that hold the same pipes join the same cells.
pub proof fn lemma_same_links(one: Seq<Seq<Point>>, other: Seq<Seq<Point>>)
    requires
        same_pipes(one, other),
    ensures
        same_links(one, other),
{
    reveal(same_pipes);
    assert forall|a: Point, b: Point| linked(one, a, b) == linked(other, a, b) by {
        if linked(one, a, b) {
            let q = choose|q: int| 0 <= q < one.len() && pipe_links(#[trigger] one[q], a, b);
            assert(alike_to_one(one[q], other));
            let r = choose|r: int| 0 <= r < other.len() && alike(one[q], #[trigger] other[r]);
            lemma_alike_links(one[q], other[r], a, b);
        }
        if linked(other, a, b) {
            let r = choose|r: int| 0 <= r < other.len() && pipe_links(#[trigger] other[r], a, b);
            assert(one_alike_to(one, other[r]));
            let q = choose|q: int| 0 <= q < one.len() && alike(#[trigger] one[q], other[r]);
            lemma_alike_links(one[q], other[r], a, b);
        }
    }
}

/// Where a pipe went to the end of the list, alike to what it was, the
/// list holds the same pipes as before.
proof fn lemma_moved_one(pipes: Seq<Seq<Point>>, i: int, x: Seq<Point>)
    requires
        0 <= i < pipes.len(),
        alike(x, pipes[i]),
    ensures
        same_pipes(swap_removed(pipes, i).push(x), pipes),
{
    reveal(same_pipes);
    let n = pipes.len() as int;
    let two = swap_removed(pipes, i).push(x);
    assert forall|q: int| 0 <= q < two.len() implies alike_to_one(#[trigger] two[q], pipes) by {
        let r = if q == n - 1 {
            i
        } else if q == i {
            n - 1
        } else {
            q
        };
        assert(alike(two[q], pipes[r]));
    }
    assert forall|r: int| 0 <= r < pipes.len() implies one_alike_to(two, #[trigger] pipes[r]) by {
        let q = if r == i {
            n - 1
        } else if r == n - 1 {
            i
        } else {
            r
        };
        assert(alike(two[q], pipes[r]));
    }
}

/// Where one pipe was replaced by a pipe alike to it and another went to
/// the end of the list, alike to what it was, the list holds the same pipes
/// as before.
proof fn lemma_moved_beside(pipes: Seq<Seq<Point>>, lo: int, hi: int, x: Seq<Point>, y: Seq<Point>)
    requires
        0 <= lo < hi < pipes.len(),
        alike(x, pipes[lo]),
        alike(y, pipes[hi]),
    ensures
        same_pipes(swap_removed(pipes, hi).update(lo, x).push(y), pipes),
{
    reveal(same_pipes);
    let n = pipes.len() as int;
    let two = swap_removed(pipes, hi).update(lo, x).push(y);
    assert forall|q: int| 0 <= q < two.len() implies alike_to_one(#[trigger] two[q], pipes) by {
        let r = if q == n - 1 {
            hi
        } else if q == hi {
            n - 1
        } else {
            q
        };
        assert(alike(two[q], pipes[r]));
    }
    assert forall|r: int| 0 <= r < pipes.len() implies one_alike_to(two, #[trigger] pipes[r]) by {
        let q = if r == hi {
            n - 1
        } else if r == n - 1 {
            hi
        } else {
            r
        };
        assert(alike(two[q], pipes[r]));
    }
}

/// Where two pipes went to the end of the list, each as it was, the list
/// holds the same pipes as before.
proof fn lemma_moved_two(pipes: Seq<Seq<Point>>, hi: int, lo: int)
    requires
        0 <= lo < hi < pipes.len(),
    ensures
        same_pipes(
            swap_removed(swap_removed(pipes, hi), lo).push(pipes[hi]).push(pipes[lo]),
            pipes,
        ),
{
    reveal(same_pipes);
    let n = pipes.len() as int;
    let mid = swap_removed(pipes, hi);
    let two = swap_removed(mid, lo).push(pipes[hi]).push(pipes[lo]);
    assert(two.len() == n);
    assert forall|q: int| 0 <= q < two.len() implies alike_to_one(#[trigger] two[q], pipes) by {
        let r = if q == n - 1 {
            lo
        } else if q == n - 2 {
            hi
        } else {
            let m = if q == lo { n - 2 } else { q };
            if m == hi { n - 1 } else { m }
        };
        assert(two[q] == pipes[r]);
    }
    assert forall|r: int| 0 <= r < pipes.len() implies one_alike_to(two, #[trigger] pipes[r]) by {
        let q = if r == lo {
            n - 1
        } else if r == hi {
            n - 2
        } else if r == n - 1 {
            // The last pipe took the place of pipe `hi`, or, where that was
            // the last but one, the place of pipe `lo`.
            if hi == n - 2 { lo } else { hi }
        } else if r == n - 2 {
            lo
        } else {
            r
        };
        assert(two[q] == pipes[r]);
    }
}

/// Where a pipe counts for a cell in a pipe turned round.
pub proof fn lemma_counts_reversed(
    objects: Map<Point, PlaneObj>,
    pipe: Seq<Point>,
    j: int,
    c: Point,
    vertical: bool,
)
    requires
        pipe.len() >= 2,
        0 <= j < pipe.len(),
        cross_at(objects, c) ==> forall|k: int| 0 < k < pipe.len() - 1 && #[trigger] pipe[k] == c ==> straight(pipe, k),
    ensures
        counts(objects, pipe.reverse(), j, c, vertical) == counts(
            objects,
            pipe,
            pipe.len() - 1 - j,
            c,
            vertical,
        ),
{
    let m = pipe.len() as int;
    let i = m - 1 - j;
    let back = pipe.reverse();
    assert(back[j] == pipe[i]);
    if pipe[i] == c && cross_at(objects, c) {
        if j == 0 {
            assert(back[1] == pipe[m - 2]);
        } else {
            assert(back[j - 1] == pipe[i + 1]);
            if i > 0 {
                assert(straight(pipe, i));
            }
        }
    }
}

/// A pipe of two points that went off the grid is laid again when the edge
/// is toggled once more, and the pipes are then the same as before.
#[verifier::rlimit(60)]
proof fn lemma_pipe_gone(objects: Map<Point, PlaneObj>, pipes: Seq<Seq<Point>>, a: Point, b: Point, i: int)
    requires
        a.adjacent(b),
        tidy_at(objects, pipes, a, b),
        0 <= i < pipes.len(),
        joins(pipes[i], a, b),
    ensures
        retoggled(objects, swap_removed(pipes, i), a, b) == Some(
            swap_removed(pipes, i).push(seq![a, b]),
        ),
        same_pipes(swap_removed(pipes, i).push(seq![a, b]), pipes),
{
    let v = a.x == b.x;
    let n = pipes.len() as int;
    let one = swap_removed(pipes, i);
    let gone = pipes[i];
    assert(link_at(gone, 0, a, b));
    let ka = if gone[0] == a { 0int } else { 1int };
    let kb = 1 - ka;
    assert(gone[ka] == a && gone[kb] == b);
    assert forall|q: int| 0 <= q < one.len() implies #[trigger] one[q] == pipes[if q == i { n - 1 } else { q }] by {}
    if !node_at(objects, a) {
        assert(counts(objects, gone, ka, a, v));
        assert forall|q: int, j: int| 0 <= q < one.len() implies !#[trigger] counts(objects, one[q], j, a, v) by {
            let r = if q == i { n - 1 } else { q };
            assert(one[q] == pipes[r]);
            if counts(objects, one[q], j, a, v) {
                assert(counts(objects, pipes[r], j, a, v));
                assert(counts(objects, pipes[i], ka, a, v));
            }
        }
    }
    lemma_piece_free(objects, one, a, v);
    if !node_at(objects, b) {
        assert(counts(objects, gone, kb, b, v));
        assert forall|q: int, j: int| 0 <= q < one.len() implies !#[trigger] counts(objects, one[q], j, b, v) by {
            let r = if q == i { n - 1 } else { q };
            assert(one[q] == pipes[r]);
            if counts(objects, one[q], j, b, v) {
                assert(counts(objects, pipes[r], j, b, v));
                assert(counts(objects, pipes[i], kb, b, v));
            }
        }
    }
    lemma_piece_free(objects, one, b, v);
    assert forall|q: int| 0 <= q < one.len() implies !joins(#[trigger] one[q], a, b) by {
        let r = if q == i { n - 1 } else { q };
        assert(one[q] == pipes[r]);
        if joins(one[q], a, b) {
            assert(link_at(pipes[r], 0, a, b));
            assert(link_at(pipes[i], 0, a, b));
        }
    }
    lemma_no_joining(one, 0, a, b);
    assert(alike(seq![a, b], gone)) by {
        if gone[0] == a {
            assert(seq![a, b] =~= gone);
        } else {
            assert(seq![a, b] =~= gone.reverse());
        }
    }
    lemma_moved_one(pipes, i, seq![a, b]);
}

/// Where a cell counts in a pipe that is alike to pipe `p`, it counts in
/// pipe `p`, at the same point or at the mirrored one.
proof fn lemma_counts_alike(
    objects: Map<Point, PlaneObj>,
    pipes: Seq<Seq<Point>>,
    a: Point,
    b: Point,
    c: Point,
    p: int,
    like: Seq<Point>,
    j: int,
)
    requires
        tidy_at(objects, pipes, a, b),
        c == a || c == b,
        !node_at(objects, c),
        0 <= p < pipes.len(),
        alike(like, pipes[p]),
        0 <= j < like.len(),
    ensures
        counts(objects, like, j, c, a.x == b.x) == counts(
            objects,
            pipes[p],
            if like == pipes[p] {
                j
            } else {
                like.len() - 1 - j
            },
            c,
            a.x == b.x,
        ),
{
    if like != pipes[p] {
        assert(pipes[p].len() >= 2);
        lemma_counts_reversed(objects, pipes[p], j, c, a.x == b.x);
    }
}

/// Two pipes that were joined, the second behind the first in the place of
/// the first, are two pipes again when the edge is toggled once more, and
/// the pipes are then the same as before. Either pipe may have been turned
/// round for the joint.
#[verifier::rlimit(60)]
proof fn lemma_joined_beside(
    objects: Map<Point, PlaneObj>,
    pipes: Seq<Seq<Point>>,
    a: Point,
    b: Point,
    lo: int,
    hi: int,
    first: Seq<Point>,
    second: Seq<Point>,
)
    requires
        a.adjacent(b),
        tidy_at(objects, pipes, a, b),
        0 <= lo < hi < pipes.len(),
        alike(first, pipes[lo]),
        alike(second, pipes[hi]),
        (first.last() == a && second[0] == b) || (first.last() == b && second[0] == a),
        !node_at(objects, a),
        !node_at(objects, b),
        counts(objects, first, first.len() - 1, first.last(), a.x == b.x),
        counts(objects, second, 0, second[0], a.x == b.x),
    ensures
        retoggled(objects, swap_removed(pipes, hi).update(lo, first + second), a, b) == Some(
            swap_removed(pipes, hi).update(lo, first).push(second),
        ),
        same_pipes(swap_removed(pipes, hi).update(lo, first).push(second), pipes),
{
    let v = a.x == b.x;
    let n = pipes.len() as int;
    let joined = first + second;
    let one = swap_removed(pipes, hi).update(lo, joined);
    let m = first.len() as int;
    let x = first.last();
    let y = second[0];
    assert(pipes[lo].len() >= 2 && pipes[hi].len() >= 2);
    assert(first.len() >= 2 && second.len() >= 2);
    assert(one[lo] == joined);
    assert forall|j: int| 0 <= j < m implies joined[j] == first[j] by {}
    assert forall|j: int| m <= j < joined.len() implies joined[j] == second[j - m] by {}
    lemma_counts_alike(objects, pipes, a, b, x, lo, first, m - 1);
    lemma_counts_alike(objects, pipes, a, b, y, hi, second, 0);
    let kx = if first == pipes[lo] { m - 1 } else { 0 };
    let ky = if second == pipes[hi] { 0 } else { second.len() - 1 };
    assert(counts(objects, pipes[lo], kx, x, v));
    assert(counts(objects, pipes[hi], ky, y, v));
    assert(counts(objects, joined, m - 1, x, v));
    assert(counts(objects, joined, m, y, v));
    assert forall|q: int, j: int| 0 <= q < one.len() && #[trigger] counts(objects, one[q], j, x, v) implies q
        == lo && j == m - 1 by {
        if q != lo {
            let r = if q == hi { n - 1 } else { q };
            assert(one[q] == pipes[r]);
            assert(counts(objects, pipes[r], j, x, v));
        } else if j < m {
            assert(counts(objects, first, j, x, v));
            lemma_counts_alike(objects, pipes, a, b, x, lo, first, j);
        } else if j > m {
            assert(counts(objects, second, j - m, x, v));
            lemma_counts_alike(objects, pipes, a, b, x, hi, second, j - m);
            let k = if second == pipes[hi] { j - m } else { second.len() - 1 - (j - m) };
            assert(counts(objects, pipes[hi], k, x, v));
        }
    }
    lemma_piece_there(objects, one, x, v, lo, m - 1);
    assert forall|q: int, j: int| 0 <= q < one.len() && #[trigger] counts(objects, one[q], j, y, v) implies q
        == lo && j == m by {
        if q != lo {
            let r = if q == hi { n - 1 } else { q };
            assert(one[q] == pipes[r]);
            assert(counts(objects, pipes[r], j, y, v));
        } else if j < m {
            assert(counts(objects, first, j, y, v));
            lemma_counts_alike(objects, pipes, a, b, y, lo, first, j);
            let k = if first == pipes[lo] { j } else { m - 1 - j };
            assert(counts(objects, pipes[lo], k, y, v));
        } else if j > m {
            assert(counts(objects, second, j - m, y, v));
            lemma_counts_alike(objects, pipes, a, b, y, hi, second, j - m);
        }
    }
    lemma_piece_there(objects, one, y, v, lo, m);
    assert(joined.subrange(0, m) =~= first);
    assert(joined.subrange(m, joined.len() as int) =~= second);
    assert(one.update(lo, first) =~= swap_removed(pipes, hi).update(lo, first));
    lemma_moved_beside(pipes, lo, hi, first, second);
}

/// Two pipes that were joined, the earlier behind the later, at the end
/// of the list, are two pipes again when the edge is toggled once more, and
/// the pipes are then the same as before.
#[verifier::rlimit(60)]
proof fn lemma_joined_behind(
    objects: Map<Point, PlaneObj>,
    pipes: Seq<Seq<Point>>,
    a: Point,
    b: Point,
    e: int,
    s: int,
)
    requires
        a.adjacent(b),
        tidy_at(objects, pipes, a, b),
        0 <= s < e < pipes.len(),
        (pipes[e].last() == a && pipes[s][0] == b) || (pipes[e].last() == b && pipes[s][0] == a),
        !node_at(objects, a),
        !node_at(objects, b),
        counts(objects, pipes[e], pipes[e].len() - 1, pipes[e].last(), a.x == b.x),
        counts(objects, pipes[s], 0, pipes[s][0], a.x == b.x),
    ensures
        retoggled(
            objects,
            swap_removed(swap_removed(pipes, e), s).push(pipes[e] + pipes[s]),
            a,
            b,
        ) == Some(swap_removed(swap_removed(pipes, e), s).push(pipes[e]).push(pipes[s])),
        same_pipes(swap_removed(swap_removed(pipes, e), s).push(pipes[e]).push(pipes[s]), pipes),
{
    let v = a.x == b.x;
    let n = pipes.len() as int;
    let first = pipes[e];
    let second = pipes[s];
    let joined = first + second;
    let rest = swap_removed(swap_removed(pipes, e), s);
    let one = rest.push(joined);
    let m = first.len() as int;
    let x = first.last();
    let y = second[0];
    let at = n - 2;
    assert(first.len() >= 2 && second.len() >= 2);
    assert(one[at] == joined);
    assert forall|j: int| 0 <= j < m implies joined[j] == first[j] by {}
    assert forall|j: int| m <= j < joined.len() implies joined[j] == second[j - m] by {}
    assert(counts(objects, joined, m - 1, x, v));
    assert(counts(objects, joined, m, y, v));
    assert forall|q: int| 0 <= q < at implies exists|r: int|
        0 <= r < n && r != e && r != s && #[trigger] one[q] == #[trigger] pipes[r] by {
        let mid = if q == s { n - 2 } else { q };
        let r = if mid == e { n - 1 } else { mid };
        assert(one[q] == pipes[r]);
    }
    assert forall|q: int, j: int| 0 <= q < one.len() && #[trigger] counts(objects, one[q], j, x, v) implies q
        == at && j == m - 1 by {
        if q != at {
            let r = choose|r: int| 0 <= r < n && r != e && r != s && #[trigger] one[q] == #[trigger] pipes[r];
            assert(counts(objects, pipes[r], j, x, v));
            assert(counts(objects, pipes[e], m - 1, x, v));
        } else if j < m {
            assert(counts(objects, pipes[e], j, x, v));
            assert(counts(objects, pipes[e], m - 1, x, v));
        } else if j > m {
            assert(counts(objects, pipes[s], j - m, x, v));
            assert(counts(objects, pipes[e], m - 1, x, v));
        }
    }
    lemma_piece_there(objects, one, x, v, at, m - 1);
    assert forall|q: int, j: int| 0 <= q < one.len() && #[trigger] counts(objects, one[q], j, y, v) implies q
        == at && j == m by {
        if q != at {
            let r = choose|r: int| 0 <= r < n && r != e && r != s && #[trigger] one[q] == #[trigger] pipes[r];
            assert(counts(objects, pipes[r], j, y, v));
            assert(counts(objects, pipes[s], 0, y, v));
        } else if j < m {
            assert(counts(objects, pipes[e], j, y, v));
            assert(counts(objects, pipes[s], 0, y, v));
        } else if j > m {
            assert(counts(objects, pipes[s], j - m, y, v));
            assert(counts(objects, pipes[s], 0, y, v));
        }
    }
    lemma_piece_there(objects, one, y, v, at, m);
    assert(joined.subrange(0, m) =~= first);
    assert(joined.subrange(m, joined.len() as int) =~= second);
    assert(one.update(at, first) =~= rest.push(first));
    lemma_moved_two(pipes, e, s);
}

/// The second toggle of an edge, for the ways in which the first toggle
/// can have gone at the first or the last point of one pipe.
proof fn lemma_twice_at_end(
    objects: Map<Point, PlaneObj>,
    pipes: Seq<Seq<Point>>,
    a: Point,
    b: Point,
    p: int,
    c: Point,
    at_start: bool,
)
    requires
        a.adjacent(b),
        tidy_at(objects, pipes, a, b),
        0 <= p < pipes.len(),
        c == a || c == b,
        node_at(objects, c) || counts_nowhere(objects, pipes, c, a.x == b.x),
        ({
            let k = if at_start { 0 } else { pipes[p].len() - 1 };
            &&& pipes[p][k] == (if c == a { b } else { a })
            &&& !node_at(objects, pipes[p][k])
            &&& counts(objects, pipes[p], k, pipes[p][k], a.x == b.x)
        }),
    ensures
        ({
            let first = if at_start {
                toggled_at_start(pipes, p, node_at(objects, c), c)
            } else {
                toggled_at_end(pipes, p, node_at(objects, c), c)
            };
            &&& retoggled(objects, first, a, b) is Some
            &&& same_pipes(retoggled(objects, first, a, b)->0, pipes)
        }),
{
    lemma_same_pipes_itself(pipes);
    let node = node_at(objects, c);
    assert(pipes[p].len() >= 2);
    if at_start {
        if node && pipes[p][1] == c {
            assert(pipes[p].len() == 2);
            lemma_pipe_gone(objects, pipes, a, b, p);
        } else {
            lemma_grown_at_start(objects, pipes, a, b, p, c);
        }
    } else {
        if node && pipes[p].len() == 2 && pipes[p][0] == c {
            lemma_pipe_gone(objects, pipes, a, b, p);
        } else {
            lemma_grown_at_end(objects, pipes, a, b, p, c);
        }
    }
}

/// The second toggle of an edge, where the first joined the starts of two
/// pipes or their ends.
proof fn lemma_twice_same_ends(
    objects: Map<Point, PlaneObj>,
    pipes: Seq<Seq<Point>>,
    a: Point,
    b: Point,
    p1: int,
    p2: int,
    at_start: bool,
)
    requires
        a.adjacent(b),
        tidy_at(objects, pipes, a, b),
        0 <= p1 < pipes.len(),
        0 <= p2 < pipes.len(),
        !node_at(objects, a),
        !node_at(objects, b),
        counts(objects, pipes[p1], if at_start { 0 } else { pipes[p1].len() - 1 }, a, a.x == b.x),
        counts(objects, pipes[p2], if at_start { 0 } else { pipes[p2].len() - 1 }, b, a.x == b.x),
    ensures
        ({
            let lo = if p1 <= p2 { p1 } else { p2 };
            let hi = if p1 <= p2 { p2 } else { p1 };
            let first = if at_start {
                swap_removed(pipes, hi).update(lo, pipes[lo].reverse() + pipes[hi])
            } else {
                swap_removed(pipes, hi).update(lo, pipes[lo] + pipes[hi].reverse())
            };
            &&& p1 != p2
            &&& retoggled(objects, first, a, b) is Some
            &&& same_pipes(retoggled(objects, first, a, b)->0, pipes)
        }),
{
    let v = a.x == b.x;
    let lo = if p1 <= p2 { p1 } else { p2 };
    let hi = if p1 <= p2 { p2 } else { p1 };
    assert(pipes[lo].len() >= 2 && pipes[hi].len() >= 2);
    let x = if p1 <= p2 { a } else { b };
    let y = if p1 <= p2 { b } else { a };
    if at_start {
        let first = pipes[lo].reverse();
        lemma_counts_alike(objects, pipes, a, b, x, lo, first, first.len() - 1);
        assert(first.last() == pipes[lo][0]);
        lemma_joined_beside(objects, pipes, a, b, lo, hi, first, pipes[hi]);
    } else {
        let second = pipes[hi].reverse();
        lemma_counts_alike(objects, pipes, a, b, y, hi, second, 0);
        assert(second[0] == pipes[hi].last());
        lemma_joined_beside(objects, pipes, a, b, lo, hi, pipes[lo], second);
    }
}

/// The second toggle of an edge, where the first met the end of pipe `e`
/// and the start of pipe `s`.
proof fn lemma_twice_end_start(
    objects: Map<Point, PlaneObj>,
    pipes: Seq<Seq<Point>>,
    a: Point,
    b: Point,
    e: int,
    s: int,
)
    requires
        a.adjacent(b),
        tidy_at(objects, pipes, a, b),
        0 <= e < pipes.len(),
        0 <= s < pipes.len(),
        !node_at(objects, a),
        !node_at(objects, b),
        (pipes[e].last() == a && pipes[s][0] == b) || (pipes[e].last() == b && pipes[s][0] == a),
        counts(objects, pipes[e], pipes[e].len() - 1, pipes[e].last(), a.x == b.x),
        counts(objects, pipes[s], 0, pipes[s][0], a.x == b.x),
    ensures
        match toggled_end_start(pipes, e, s) {
            Some(first) => retoggled(objects, first, a, b) is Some && same_pipes(
                retoggled(objects, first, a, b)->0,
                pipes,
            ),
            None => true,
        },
{
    lemma_same_pipes_itself(pipes);
    assert(pipes[e].len() >= 2 && pipes[s].len() >= 2);
    if e == s {
        if pipes[e].len() == 2 {
            lemma_pipe_gone(objects, pipes, a, b, e);
        }
    } else if e < s {
        lemma_joined_beside(objects, pipes, a, b, e, s, pipes[e], pipes[s]);
    } else {
        lemma_joined_behind(objects, pipes, a, b, e, s);
    }
}

/// The second toggle of an edge, where the first met an inner point of
/// pipe `p` and a node or a cell that counts nowhere.
proof fn lemma_twice_at_middle(
    objects: Map<Point, PlaneObj>,
    pipes: Seq<Seq<Point>>,
    a: Point,
    b: Point,
    p: int,
    k: int,
    c: Point,
)
    requires
        a.adjacent(b),
        tidy_at(objects, pipes, a, b),
        0 <= p < pipes.len(),
        0 < k,
        k + 1 < pipes[p].len(),
        c == a || c == b,
        pipes[p][k] == (if c == a { b } else { a }),
        !node_at(objects, pipes[p][k]),
        counts(objects, pipes[p], k, pipes[p][k], a.x == b.x),
    ensures
        match toggled_at_middle(pipes, p, k, node_at(objects, c), c) {
            Some(first) => retoggled(objects, first, a, b) is Some && same_pipes(
                retoggled(objects, first, a, b)->0,
                pipes,
            ),
            None => true,
        },
{
    lemma_same_pipes_itself(pipes);
    let node = node_at(objects, c);
    if node && k == 1 && pipes[p][0] == c {
        lemma_shrunk_at_start(objects, pipes, a, b, p);
    } else if node && k + 2 == pipes[p].len() && pipes[p][k + 1] == c {
        lemma_shrunk_at_end(objects, pipes, a, b, p);
    }
}

/// Toggling an edge twice in a row gives back the pipes as they were, up
/// to the order of the pipes and the way round of each, where the pipes keep
/// order at the edge: what the first toggle lays the second takes up, and
/// what the first takes up the second lays again. The second toggle is
/// accepted exactly if the first was, and the pipes join the same cells as
/// before.
pub proof fn lemma_toggle_twice(g: PlaneModel, a: Point, b: Point)
    requires
        tidy_at(g.objects, g.pipes, a, b),
    ensures
        (g.toggled(a, b).toggle(a, b) is Some) == (g.toggle(a, b) is Some),
        same_pipes(g.toggled(a, b).toggled(a, b).pipes, g.pipes),
        same_links(g.toggled(a, b).toggled(a, b).pipes, g.pipes),
        g.toggled(a, b).toggled(a, b).objects == g.objects,
        g.toggled(a, b).toggled(a, b).rect == g.rect,
{
    lemma_toggle_twice_pipes(g, a, b);
    lemma_same_links(g.toggled(a, b).toggled(a, b).pipes, g.pipes);
}

/// The pipes after an edge was toggled twice in a row.
#[verifier::rlimit(60)]
proof fn lemma_toggle_twice_pipes(g: PlaneModel, a: Point, b: Point)
    requires
        tidy_at(g.objects, g.pipes, a, b),
    ensures
        (g.toggled(a, b).toggle(a, b) is Some) == (g.toggle(a, b) is Some),
        same_pipes(g.toggled(a, b).toggled(a, b).pipes, g.pipes),
        g.toggled(a, b).toggled(a, b).objects == g.objects,
        g.toggled(a, b).toggled(a, b).rect == g.rect,
{
    let objects = g.objects;
    let pipes = g.pipes;
    let v = a.x == b.x;
    lemma_same_pipes_itself(pipes);
    if g.edge_allowed(a, b) {
        let piece1 = piece_at(objects, pipes, a, v);
        let piece2 = piece_at(objects, pipes, b, v);
        lemma_piece_found(objects, pipes, a, v);
        lemma_piece_found(objects, pipes, b, v);
        let once = g.toggled(a, b);
        assert(once.edge_allowed(a, b));
        assert(once.toggle(a, b) == retoggled(objects, once.pipes, a, b));
        match (piece1, piece2) {
            (PipePiece::EmptyOrNode(n1), PipePiece::EmptyOrNode(n2)) => {
                let direct = first_joining(pipes, 0, a, b);
                if n1 && n2 && direct is Some {
                    lemma_joining_found(pipes, 0, a, b);
                    lemma_pipe_gone(objects, pipes, a, b, direct->0);
                } else {
                    lemma_new_pipe(objects, pipes, a, b);
                }
            },
            (PipePiece::EmptyOrNode(n), PipePiece::Start(p2)) => {
                lemma_twice_at_end(objects, pipes, a, b, p2 as int, a, true);
            },
            (PipePiece::EmptyOrNode(n), PipePiece::End(p2)) => {
                lemma_twice_at_end(objects, pipes, a, b, p2 as int, a, false);
            },
            (PipePiece::Start(p1), PipePiece::EmptyOrNode(n)) => {
                lemma_twice_at_end(objects, pipes, a, b, p1 as int, b, true);
            },
            (PipePiece::End(p1), PipePiece::EmptyOrNode(n)) => {
                lemma_twice_at_end(objects, pipes, a, b, p1 as int, b, false);
            },
            (PipePiece::Start(p1), PipePiece::Start(p2)) => {
                lemma_twice_same_ends(objects, pipes, a, b, p1 as int, p2 as int, true);
            },
            (PipePiece::End(p1), PipePiece::End(p2)) => {
                lemma_twice_same_ends(objects, pipes, a, b, p1 as int, p2 as int, false);
            },
            (PipePiece::End(e), PipePiece::Start(s)) => {
                lemma_twice_end_start(objects, pipes, a, b, e as int, s as int);
            },
            (PipePiece::Start(s), PipePiece::End(e)) => {
                lemma_twice_end_start(objects, pipes, a, b, e as int, s as int);
            },
            (PipePiece::Start(p), PipePiece::Middle(q, k)) => {
                if p == q && k == 1 {
                    lemma_shrunk_at_start(objects, pipes, a, b, p as int);
                }
            },
            (PipePiece::Middle(q, k), PipePiece::Start(p)) => {
                if p == q && k == 1 {
                    lemma_shrunk_at_start(objects, pipes, a, b, p as int);
                }
            },
            (PipePiece::Middle(q, k), PipePiece::End(p)) => {
                if p == q && k + 2 == pipes[p as int].len() {
                    lemma_shrunk_at_end(objects, pipes, a, b, p as int);
                }
            },
            (PipePiece::End(p), PipePiece::Middle(q, k)) => {
                if p == q && k + 2 == pipes[p as int].len() {
                    lemma_shrunk_at_end(objects, pipes, a, b, p as int);
                }
            },
            (PipePiece::Middle(p1, k1), PipePiece::Middle(p2, k2)) => {
                let lo = if k1 <= k2 { k1 as int } else { k2 as int };
                let hi = if k1 <= k2 { k2 as int } else { k1 as int };
                if p1 == p2 && lo + 1 == hi {
                    lemma_cut(objects, pipes, a, b, p1 as int, lo);
                }
            },
            (PipePiece::Middle(p1, k1), PipePiece::EmptyOrNode(n)) => {
                lemma_twice_at_middle(objects, pipes, a, b, p1 as int, k1 as int, b);
            },
            (PipePiece::EmptyOrNode(n), PipePiece::Middle(p2, k2)) => {
                lemma_twice_at_middle(objects, pipes, a, b, p2 as int, k2 as int, a);
            },
        }
    }
}

} // verus!
