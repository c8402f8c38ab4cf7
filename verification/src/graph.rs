//! The adjacency graph: four directed relations (left-of, right-of, atop,
//! below) over all bodies, rebuilt from scratch every tick by an exhaustive
//! pairwise scan.
//!
//! Special cases of the scan:
//! - a step and its own escalator are linked mechanically, not geometrically:
//!   the escalator is always a support (`bottoms`) of its step and the step
//!   always a rider (`tops`) of its escalator;
//! - two steps are never adjacent to each other;
//! - escalators take no part in the horizontal relations, so that a frame and
//!   the steps riding it cannot wedge each other sideways.

use vstd::prelude::*;
use crate::geom::{is_atop, is_atop_spec, is_beside, is_beside_spec};
use crate::body::{Body, Role, World};

verus! {

/// `j` is a left neighbour of `i`: `j` stands immediately to the left of `i`.
pub open spec fn left_edge(bodies: Seq<Body>, i: int, j: int) -> bool {
    &&& i != j
    &&& !(bodies[i].role is Escalator)
    &&& !(bodies[j].role is Escalator)
    &&& !(bodies[i].role is Step && bodies[j].role is Step)
    &&& is_beside_spec(bodies[j].rect, bodies[i].rect)
}

/// `j` is a right neighbour of `i`.
pub open spec fn right_edge(bodies: Seq<Body>, i: int, j: int) -> bool {
    left_edge(bodies, j, i)
}

/// `j` is the step whose owning escalator is `i`.
pub open spec fn step_of(bodies: Seq<Body>, j: int, i: int) -> bool {
    bodies[j].role matches Role::Step { escalator, .. } && escalator as int == i
}

/// The pair is left out of the geometric vertical scan: two steps, or a step
/// and its own escalator (the latter pair is linked mechanically instead).
pub open spec fn pair_skipped(bodies: Seq<Body>, i: int, j: int) -> bool {
    ||| (bodies[i].role is Step && bodies[j].role is Step)
    ||| step_of(bodies, i, j)
    ||| step_of(bodies, j, i)
}

/// `j` rides on `i`: mechanically (a step on its own escalator) or
/// geometrically (`j` rests atop `i`).
pub open spec fn top_edge(bodies: Seq<Body>, i: int, j: int) -> bool {
    &&& i != j
    &&& {
        ||| step_of(bodies, j, i)
        ||| (!pair_skipped(bodies, i, j) && is_atop_spec(bodies[j].rect, bodies[i].rect))
    }
}

/// `j` supports `i`.
pub open spec fn bottom_edge(bodies: Seq<Body>, i: int, j: int) -> bool {
    top_edge(bodies, j, i)
}

/// The neighbour row of `i`, over candidates `0 .. n_j`, in ascending order.
pub open spec fn left_row_upto(bodies: Seq<Body>, i: int, n_j: int) -> Seq<usize>
    decreases n_j,
{
    if n_j <= 0 {
        Seq::empty()
    } else if left_edge(bodies, i, n_j - 1) {
        left_row_upto(bodies, i, n_j - 1).push((n_j - 1) as usize)
    } else {
        left_row_upto(bodies, i, n_j - 1)
    }
}

pub open spec fn right_row_upto(bodies: Seq<Body>, i: int, n_j: int) -> Seq<usize>
    decreases n_j,
{
    if n_j <= 0 {
        Seq::empty()
    } else if right_edge(bodies, i, n_j - 1) {
        right_row_upto(bodies, i, n_j - 1).push((n_j - 1) as usize)
    } else {
        right_row_upto(bodies, i, n_j - 1)
    }
}

pub open spec fn top_row_upto(bodies: Seq<Body>, i: int, n_j: int) -> Seq<usize>
    decreases n_j,
{
    if n_j <= 0 {
        Seq::empty()
    } else if top_edge(bodies, i, n_j - 1) {
        top_row_upto(bodies, i, n_j - 1).push((n_j - 1) as usize)
    } else {
        top_row_upto(bodies, i, n_j - 1)
    }
}

pub open spec fn bottom_row_upto(bodies: Seq<Body>, i: int, n_j: int) -> Seq<usize>
    decreases n_j,
{
    if n_j <= 0 {
        Seq::empty()
    } else if bottom_edge(bodies, i, n_j - 1) {
        bottom_row_upto(bodies, i, n_j - 1).push((n_j - 1) as usize)
    } else {
        bottom_row_upto(bodies, i, n_j - 1)
    }
}

/// All four relations, one row per body.
pub open spec fn left_rows(bodies: Seq<Body>) -> Seq<Seq<usize>> {
    Seq::new(bodies.len(), |i: int| left_row_upto(bodies, i, bodies.len() as int))
}

pub open spec fn right_rows(bodies: Seq<Body>) -> Seq<Seq<usize>> {
    Seq::new(bodies.len(), |i: int| right_row_upto(bodies, i, bodies.len() as int))
}

pub open spec fn top_rows(bodies: Seq<Body>) -> Seq<Seq<usize>> {
    Seq::new(bodies.len(), |i: int| top_row_upto(bodies, i, bodies.len() as int))
}

pub open spec fn bottom_rows(bodies: Seq<Body>) -> Seq<Seq<usize>> {
    Seq::new(bodies.len(), |i: int| bottom_row_upto(bodies, i, bodies.len() as int))
}

/// A row mentions `j`.
pub open spec fn row_has(row: Seq<usize>, j: int) -> bool {
    exists|k: int| 0 <= k < row.len() && row[k] == j
}

/// Every entry of a row is an index into the store.
pub open spec fn row_in_range(row: Seq<usize>, n: nat) -> bool {
    forall|k: int| 0 <= k < row.len() ==> (#[trigger] row[k]) < n
}

pub open spec fn rows_in_range(rows: Seq<Seq<usize>>, n: nat) -> bool {
    forall|i: int| 0 <= i < rows.len() ==> row_in_range(#[trigger] rows[i], n)
}

/// The view of a vector of rows.
pub open spec fn rows_view(rows: Seq<Vec<usize>>) -> Seq<Seq<usize>> {
    Seq::new(rows.len(), |i: int| rows[i]@)
}

/// A row over candidates `0 .. n_j` mentions `j` exactly when the edge holds.
pub proof fn lemma_left_row_has(bodies: Seq<Body>, i: int, n_j: int, j: int)
    requires
        n_j <= usize::MAX,
    ensures
        row_has(left_row_upto(bodies, i, n_j), j) <==> (0 <= j < n_j && left_edge(bodies, i, j)),
    decreases n_j,
{
    if n_j > 0 {
        lemma_left_row_has(bodies, i, n_j - 1, j);
        let prev = left_row_upto(bodies, i, n_j - 1);
        if left_edge(bodies, i, n_j - 1) {
            let row = prev.push((n_j - 1) as usize);
            assert forall|k: int| 0 <= k < prev.len() implies row[k] == prev[k] by {}
            assert(row[row.len() - 1] == (n_j - 1) as usize);
            if row_has(prev, j) {
                let k = choose|k: int| 0 <= k < prev.len() && prev[k] == j;
                assert(row[k] == j);
            }
        }
    }
}

pub proof fn lemma_right_row_has(bodies: Seq<Body>, i: int, n_j: int, j: int)
    requires
        n_j <= usize::MAX,
    ensures
        row_has(right_row_upto(bodies, i, n_j), j) <==> (0 <= j < n_j && right_edge(bodies, i, j)),
    decreases n_j,
{
    if n_j > 0 {
        lemma_right_row_has(bodies, i, n_j - 1, j);
        let prev = right_row_upto(bodies, i, n_j - 1);
        if right_edge(bodies, i, n_j - 1) {
            let row = prev.push((n_j - 1) as usize);
            assert forall|k: int| 0 <= k < prev.len() implies row[k] == prev[k] by {}
            assert(row[row.len() - 1] == (n_j - 1) as usize);
            if row_has(prev, j) {
                let k = choose|k: int| 0 <= k < prev.len() && prev[k] == j;
                assert(row[k] == j);
            }
        }
    }
}

pub proof fn lemma_top_row_has(bodies: Seq<Body>, i: int, n_j: int, j: int)
    requires
        n_j <= usize::MAX,
    ensures
        row_has(top_row_upto(bodies, i, n_j), j) <==> (0 <= j < n_j && top_edge(bodies, i, j)),
    decreases n_j,
{
    if n_j > 0 {
        lemma_top_row_has(bodies, i, n_j - 1, j);
        let prev = top_row_upto(bodies, i, n_j - 1);
        if top_edge(bodies, i, n_j - 1) {
            let row = prev.push((n_j - 1) as usize);
            assert forall|k: int| 0 <= k < prev.len() implies row[k] == prev[k] by {}
            assert(row[row.len() - 1] == (n_j - 1) as usize);
            if row_has(prev, j) {
                let k = choose|k: int| 0 <= k < prev.len() && prev[k] == j;
                assert(row[k] == j);
            }
        }
    }
}

pub proof fn lemma_bottom_row_has(bodies: Seq<Body>, i: int, n_j: int, j: int)
    requires
        n_j <= usize::MAX,
    ensures
        row_has(bottom_row_upto(bodies, i, n_j), j) <==> (0 <= j < n_j && bottom_edge(bodies, i, j)),
    decreases n_j,
{
    if n_j > 0 {
        lemma_bottom_row_has(bodies, i, n_j - 1, j);
        let prev = bottom_row_upto(bodies, i, n_j - 1);
        if bottom_edge(bodies, i, n_j - 1) {
            let row = prev.push((n_j - 1) as usize);
            assert forall|k: int| 0 <= k < prev.len() implies row[k] == prev[k] by {}
            assert(row[row.len() - 1] == (n_j - 1) as usize);
            if row_has(prev, j) {
                let k = choose|k: int| 0 <= k < prev.len() && prev[k] == j;
                assert(row[k] == j);
            }
        }
    }
}

/// The tick-scoped relations. Row `i` of `lefts` holds the left neighbours
/// of body `i`, and so on; inactive bodies appear too (they still block,
/// they only do not relay).
pub struct AdjacencyGraph {
    pub lefts: Vec<Vec<usize>>,
    pub rights: Vec<Vec<usize>>,
    pub tops: Vec<Vec<usize>>,
    pub bottoms: Vec<Vec<usize>>,
}

impl AdjacencyGraph {
    /// The graph is exactly the four relations of `bodies`.
    pub open spec fn matches(self, bodies: Seq<Body>) -> bool {
        &&& rows_view(self.lefts@) == left_rows(bodies)
        &&& rows_view(self.rights@) == right_rows(bodies)
        &&& rows_view(self.tops@) == top_rows(bodies)
        &&& rows_view(self.bottoms@) == bottom_rows(bodies)
    }

    pub open spec fn wf(self, n: nat) -> bool {
        &&& self.lefts@.len() == n && rows_in_range(rows_view(self.lefts@), n)
        &&& self.rights@.len() == n && rows_in_range(rows_view(self.rights@), n)
        &&& self.tops@.len() == n && rows_in_range(rows_view(self.tops@), n)
        &&& self.bottoms@.len() == n && rows_in_range(rows_view(self.bottoms@), n)
    }
}

pub(crate) fn is_escalator(b: &Body) -> (r: bool)
    ensures
        r == (b.role is Escalator),
{
    match b.role {
        Role::Escalator => true,
        _ => false,
    }
}

pub(crate) fn is_step(b: &Body) -> (r: bool)
    ensures
        r == (b.role is Step),
{
    match b.role {
        Role::Step { .. } => true,
        _ => false,
    }
}

/// The step-of test between two store indices.
fn is_step_of(b: &Body, i: usize) -> (r: bool)
    ensures
        r == (b.role matches Role::Step { escalator, .. } && escalator == i),
{
    match b.role {
        Role::Step { escalator, .. } => escalator == i,
        _ => false,
    }
}

fn left_edge_at(world: &World, i: usize, j: usize) -> (r: bool)
    requires
        world.wf(),
        i < world.n(),
        j < world.n(),
    ensures
        r == left_edge(world.bodies@, i as int, j as int),
{
    if i == j {
        return false;
    }
    let bi = &world.bodies[i];
    let bj = &world.bodies[j];
    if is_escalator(bi) || is_escalator(bj) {
        return false;
    }
    if is_step(bi) && is_step(bj) {
        return false;
    }
    is_beside(&bj.rect, &bi.rect)
}

fn top_edge_at(world: &World, i: usize, j: usize) -> (r: bool)
    requires
        world.wf(),
        i < world.n(),
        j < world.n(),
    ensures
        r == top_edge(world.bodies@, i as int, j as int),
{
    if i == j {
        return false;
    }
    let bi = &world.bodies[i];
    let bj = &world.bodies[j];
    if is_step_of(bj, i) {
        return true;
    }
    if is_step(bi) && is_step(bj) {
        return false;
    }
    if is_step_of(bi, j) {
        return false;
    }
    is_atop(&bj.rect, &bi.rect)
}

/// Build the four relations by an exhaustive pairwise scan of all bodies.
/// Cost is quadratic in the body count; the graph is rebuilt whole every
/// tick, never updated incrementally.
pub fn build_graph(world: &World) -> (g: AdjacencyGraph)
    requires
        world.wf(),
    ensures
        g.wf(world.n()),
        g.matches(world.bodies@),
        forall|i: int, j: int| 0 <= i < world.n() && 0 <= j < world.n() ==> (#[trigger] row_has(
            rows_view(g.lefts@)[i],
            j,
        ) <==> left_edge(world.bodies@, i, j)),
        forall|i: int, j: int| 0 <= i < world.n() && 0 <= j < world.n() ==> (#[trigger] row_has(
            rows_view(g.rights@)[i],
            j,
        ) <==> right_edge(world.bodies@, i, j)),
        forall|i: int, j: int| 0 <= i < world.n() && 0 <= j < world.n() ==> (#[trigger] row_has(
            rows_view(g.tops@)[i],
            j,
        ) <==> top_edge(world.bodies@, i, j)),
        forall|i: int, j: int| 0 <= i < world.n() && 0 <= j < world.n() ==> (#[trigger] row_has(
            rows_view(g.bottoms@)[i],
            j,
        ) <==> bottom_edge(world.bodies@, i, j)),
{
    let n = world.bodies.len();
    let bodies = Ghost(world.bodies@);
    let mut lefts: Vec<Vec<usize>> = Vec::new();
    let mut rights: Vec<Vec<usize>> = Vec::new();
    let mut tops: Vec<Vec<usize>> = Vec::new();
    let mut bottoms: Vec<Vec<usize>> = Vec::new();
    let mut i: usize = 0;
    while i < n
        invariant
            world.wf(),
            n == world.n(),
            bodies@ == world.bodies@,
            i <= n,
            lefts@.len() == i,
            rights@.len() == i,
            tops@.len() == i,
            bottoms@.len() == i,
            forall|ii: int| 0 <= ii < i ==> (#[trigger] lefts@[ii])@ == left_row_upto(bodies@, ii, n as int),
            forall|ii: int| 0 <= ii < i ==> (#[trigger] rights@[ii])@ == right_row_upto(bodies@, ii, n as int),
            forall|ii: int| 0 <= ii < i ==> (#[trigger] tops@[ii])@ == top_row_upto(bodies@, ii, n as int),
            forall|ii: int| 0 <= ii < i ==> (#[trigger] bottoms@[ii])@ == bottom_row_upto(bodies@, ii, n as int),
            forall|ii: int| 0 <= ii < i ==> row_in_range((#[trigger] lefts@[ii])@, n as nat),
            forall|ii: int| 0 <= ii < i ==> row_in_range((#[trigger] rights@[ii])@, n as nat),
            forall|ii: int| 0 <= ii < i ==> row_in_range((#[trigger] tops@[ii])@, n as nat),
            forall|ii: int| 0 <= ii < i ==> row_in_range((#[trigger] bottoms@[ii])@, n as nat),
        decreases n - i,
    {
        let mut row_l: Vec<usize> = Vec::new();
        let mut row_r: Vec<usize> = Vec::new();
        let mut row_t: Vec<usize> = Vec::new();
        let mut row_b: Vec<usize> = Vec::new();
        let mut j: usize = 0;
        while j < n
            invariant
                world.wf(),
                n == world.n(),
                bodies@ == world.bodies@,
                i < n,
                j <= n,
                row_l@ == left_row_upto(bodies@, i as int, j as int),
                row_r@ == right_row_upto(bodies@, i as int, j as int),
                row_t@ == top_row_upto(bodies@, i as int, j as int),
                row_b@ == bottom_row_upto(bodies@, i as int, j as int),
                row_in_range(row_l@, n as nat),
                row_in_range(row_r@, n as nat),
                row_in_range(row_t@, n as nat),
                row_in_range(row_b@, n as nat),
            decreases n - j,
        {
            if left_edge_at(world, i, j) {
                row_l.push(j);
            }
            if left_edge_at(world, j, i) {
                row_r.push(j);
            }
            if top_edge_at(world, i, j) {
                row_t.push(j);
            }
            if top_edge_at(world, j, i) {
                row_b.push(j);
            }
            j = j + 1;
        }
        lefts.push(row_l);
        rights.push(row_r);
        tops.push(row_t);
        bottoms.push(row_b);
        i = i + 1;
    }
    let g = AdjacencyGraph { lefts, rights, tops, bottoms };
    proof {
        assert(rows_view(g.lefts@) =~= left_rows(bodies@));
        assert(rows_view(g.rights@) =~= right_rows(bodies@));
        assert(rows_view(g.tops@) =~= top_rows(bodies@));
        assert(rows_view(g.bottoms@) =~= bottom_rows(bodies@));
        assert forall|ii: int| 0 <= ii < n implies row_in_range(#[trigger] rows_view(g.lefts@)[ii], n as nat) by {
            assert(rows_view(g.lefts@)[ii] == g.lefts@[ii]@);
        }
        assert forall|ii: int| 0 <= ii < n implies row_in_range(#[trigger] rows_view(g.rights@)[ii], n as nat) by {
            assert(rows_view(g.rights@)[ii] == g.rights@[ii]@);
        }
        assert forall|ii: int| 0 <= ii < n implies row_in_range(#[trigger] rows_view(g.tops@)[ii], n as nat) by {
            assert(rows_view(g.tops@)[ii] == g.tops@[ii]@);
        }
        assert forall|ii: int| 0 <= ii < n implies row_in_range(#[trigger] rows_view(g.bottoms@)[ii], n as nat) by {
            assert(rows_view(g.bottoms@)[ii] == g.bottoms@[ii]@);
        }
        assert forall|ii: int, jj: int| 0 <= ii < n && 0 <= jj < n implies (#[trigger] row_has(
            rows_view(g.lefts@)[ii],
            jj,
        ) <==> left_edge(bodies@, ii, jj)) by {
            lemma_left_row_has(bodies@, ii, n as int, jj);
        }
        assert forall|ii: int, jj: int| 0 <= ii < n && 0 <= jj < n implies (#[trigger] row_has(
            rows_view(g.rights@)[ii],
            jj,
        ) <==> right_edge(bodies@, ii, jj)) by {
            lemma_right_row_has(bodies@, ii, n as int, jj);
        }
        assert forall|ii: int, jj: int| 0 <= ii < n && 0 <= jj < n implies (#[trigger] row_has(
            rows_view(g.tops@)[ii],
            jj,
        ) <==> top_edge(bodies@, ii, jj)) by {
            lemma_top_row_has(bodies@, ii, n as int, jj);
        }
        assert forall|ii: int, jj: int| 0 <= ii < n && 0 <= jj < n implies (#[trigger] row_has(
            rows_view(g.bottoms@)[ii],
            jj,
        ) <==> bottom_edge(bodies@, ii, jj)) by {
            lemma_bottom_row_has(bodies@, ii, n as int, jj);
        }
    }
    g
}

} // verus!
