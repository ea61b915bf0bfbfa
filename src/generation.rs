use crate::dungeon::{grid_changed, next_grid, Dungeon};
use vstd::prelude::*;

verus! {

/// A run of the automaton over a grid: at most `max_iterations` steps, ending
/// early at the first step that changes nothing. Whoever drives it shows the
/// grid before each step and once more when the run is finished.
pub struct Generation {
    dungeon: Dungeon,
    iteration: usize,
    max_iterations: usize,
    finished: bool,
}

/// `after` is `before` advanced by one step.
pub open spec fn advanced(before: Generation, after: Generation) -> bool {
    let d = before.spec_dungeon();
    let changed = grid_changed(d@, d.spec_width(), d.spec_height());
    &&& after.wf()
    &&& after.spec_dungeon().spec_width() == d.spec_width()
    &&& after.spec_dungeon().spec_height() == d.spec_height()
    &&& after.spec_dungeon()@ == next_grid(d@, d.spec_width(), d.spec_height())
    &&& after.spec_iteration() == before.spec_iteration() + 1
    &&& after.spec_max_iterations() == before.spec_max_iterations()
    &&& after.spec_finished() == (!changed || after.spec_iteration() == after.spec_max_iterations())
}

impl Generation {
    pub closed spec fn spec_dungeon(&self) -> Dungeon {
        self.dungeon
    }

    pub closed spec fn spec_iteration(&self) -> int {
        self.iteration as int
    }

    pub closed spec fn spec_max_iterations(&self) -> int {
        self.max_iterations as int
    }

    pub closed spec fn spec_finished(&self) -> bool {
        self.finished
    }

    /// The grid is well formed, and a run that is not finished has a step left.
    pub closed spec fn wf(&self) -> bool {
        &&& self.dungeon.wf()
        &&& self.iteration <= self.max_iterations
        &&& !self.finished ==> self.iteration < self.max_iterations
    }

    /// A run over `dungeon` with no step taken yet; with no step allowed it
    /// is finished at once.
    pub fn new(dungeon: Dungeon, max_iterations: usize) -> (r: Generation)
        requires
            dungeon.wf(),
        ensures
            r.wf(),
            r.spec_dungeon() == dungeon,
            r.spec_iteration() == 0,
            r.spec_max_iterations() == max_iterations,
            r.spec_finished() == (max_iterations == 0),
    {
        Generation { dungeon, iteration: 0, max_iterations, finished: max_iterations == 0 }
    }

    /// Takes one step; the run is finished when the step changed nothing or
    /// was the last one allowed. Returns whether the step changed a cell.
    pub fn advance(&mut self) -> (changed: bool)
        requires
            old(self).wf(),
            !old(self).spec_finished(),
        ensures
            advanced(*old(self), *final(self)),
            changed == grid_changed(
                old(self).spec_dungeon()@,
                old(self).spec_dungeon().spec_width(),
                old(self).spec_dungeon().spec_height(),
            ),
    {
        let changed = self.dungeon.simulate_step();
        self.iteration = self.iteration + 1;
        self.finished = !changed || self.iteration == self.max_iterations;
        changed
    }

    /// The current grid.
    pub fn dungeon(&self) -> (r: &Dungeon)
        ensures
            *r == self.spec_dungeon(),
    {
        &self.dungeon
    }

    /// The number of steps taken so far.
    pub fn iteration(&self) -> (r: usize)
        ensures
            r == self.spec_iteration(),
    {
        self.iteration
    }

    pub fn max_iterations(&self) -> (r: usize)
        ensures
            r == self.spec_max_iterations(),
    {
        self.max_iterations
    }

    pub fn is_finished(&self) -> (r: bool)
        ensures
            r == self.spec_finished(),
    {
        self.finished
    }
}

/// A run over a grid that is already stable finishes after its first step,
/// with the grid unchanged; where two or more steps were allowed, it stops
/// short of the limit.
pub proof fn lemma_stable_grid_stops(before: Generation, after: Generation)
    requires
        before.wf(),
        !before.spec_finished(),
        !grid_changed(
            before.spec_dungeon()@,
            before.spec_dungeon().spec_width(),
            before.spec_dungeon().spec_height(),
        ),
        advanced(before, after),
    ensures
        after.spec_finished(),
        after.spec_dungeon()@ == before.spec_dungeon()@,
        after.spec_iteration() == before.spec_iteration() + 1,
        before.spec_iteration() == 0 && before.spec_max_iterations() >= 2 ==> after.spec_iteration()
            < after.spec_max_iterations(),
{
    let d = before.spec_dungeon();
    let g = d@;
    let w = d.spec_width();
    let h = d.spec_height();
    d.lemma_shape();
    assert forall|y: int| 0 <= y < h implies #[trigger] next_grid(g, w, h)[y] == g[y] by {
        assert forall|x: int| 0 <= x < w implies #[trigger] next_grid(g, w, h)[y][x] == g[y][x] by {
            assert(!(crate::dungeon::next_tile(g, w, h, x, y) != g[y][x]));
        }
        assert(next_grid(g, w, h)[y] =~= g[y]);
    }
    assert(next_grid(g, w, h) =~= g);
}

/// A run never takes more steps than it allows: in any chain of steps, each
/// taken from a run that was not finished, the number of steps is at most the
/// limit less the steps already taken at the start.
pub proof fn lemma_bounded_run(run: Seq<Generation>)
    requires
        run.len() >= 1,
        run[0].wf(),
        forall|i: int| 0 <= i < run.len() - 1 ==> !(#[trigger] run[i]).spec_finished() && advanced(run[i], run[i + 1]),
    ensures
        run.len() - 1 <= run[0].spec_max_iterations() - run[0].spec_iteration(),
    decreases run.len(),
{
    if run.len() > 1 {
        let rest = run.drop_first();
        assert(rest[0] == run[1]);
        assert forall|i: int| 0 <= i < rest.len() - 1 implies !(#[trigger] rest[i]).spec_finished() && advanced(rest[i], rest[i + 1]) by {
            assert(rest[i] == run[i + 1]);
            assert(rest[i + 1] == run[i + 2]);
        }
        assert(!run[0].spec_finished() && advanced(run[0], run[1]));
        lemma_bounded_run(rest);
    }
}

} // verus!
