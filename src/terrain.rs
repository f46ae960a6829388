//! The generation engine: a per-terrain state machine that places modules
//! one step at a time.
use vstd::prelude::*;
use rand::rngs::StdRng;
use crate::adjacency::{allowed_indices, candidates, context, GenerationRule, TerrainModule};
use crate::grid::{lemma_kept_in_trans, Grid, GridModel, Placement, Position};
use crate::random::{choose_one, random_below};

verus! {

/// Consecutive fruitless recovery attempts tolerated before giving up.
pub const STALEMATE_LIMIT: u32 = 10;

/// How a terrain is generated.
#[derive(Clone, Copy, PartialEq, Eq, Structural, Debug)]
pub enum GenerationType {
    WaveCollapse,
}

/// Non-fatal conditions reported by a finished run.
#[derive(Clone, Copy, PartialEq, Eq, Structural, Debug)]
pub enum TerrainWarning {
    /// The catalog held no module; the run finished with an empty grid.
    NoModules,
    /// Recovery failed too many times in a row; the grid is partial.
    StalemateExhausted,
}

/// The phase of a run, as seen by contracts.
pub ghost enum Phase {
    JustStarted,
    PlacedModules(Seq<Position>),
    Stalemate,
    Finished,
}

enum GenerationState {
    JustStarted,
    PlacedModules(Vec<Position>),
    Stalemate,
    Finished,
}

/// The mathematical content of a terrain run.
pub ghost struct TerrainView {
    pub grid: GridModel,
    pub phase: Phase,
    pub stalemates: nat,
    pub warnings: Seq<TerrainWarning>,
}

/// `(x, y)` as a one-element sequence when it lies in a `width * height`
/// grid, else empty.
pub open spec fn within(x: int, y: int, width: nat, height: nat) -> Seq<Position> {
    if 0 <= x < width && 0 <= y < height {
        seq![Position { x: x as u32, y: y as u32 }]
    } else {
        seq![]
    }
}

/// The in-bounds neighbours of `p`: south, east, west, north.
pub open spec fn adjacent_seq(p: Position, width: nat, height: nat) -> Seq<Position> {
    within(p.x as int, p.y + 1, width, height) + within(p.x + 1, p.y as int, width, height)
        + within(p.x - 1, p.y as int, width, height) + within(
        p.x as int,
        p.y - 1,
        width,
        height,
    )
}

pub open spec fn inside(p: Position, width: nat, height: nat) -> bool {
    p.x < width && p.y < height
}

/// The neighbours visited by a propagation pass over `frontier`, in order.
pub open spec fn pass_targets(frontier: Seq<Position>, width: nat, height: nat) -> Seq<Position>
    decreases frontier.len(),
{
    if frontier.len() == 0 {
        seq![]
    } else {
        pass_targets(frontier.drop_last(), width, height) + adjacent_seq(
            frontier.last(),
            width,
            height,
        )
    }
}

/// The placement forced at `p`: `p` is empty and exactly one module fits.
pub open spec fn forced<R: GenerationRule>(
    g: GridModel,
    modules: Seq<TerrainModule<R>>,
    p: Position,
) -> Option<Placement> {
    let c = allowed_indices(modules, context(g, p));
    if !g.occupied(p) && c.len() == 1 {
        Some(Placement { module: c[0], id: modules[c[0] as int].id })
    } else {
        None
    }
}

/// Visits `targets` in order, placing each forced module; gives the grid
/// and the newly placed positions.
pub open spec fn sweep<R: GenerationRule>(
    g: GridModel,
    modules: Seq<TerrainModule<R>>,
    targets: Seq<Position>,
) -> (GridModel, Seq<Position>)
    decreases targets.len(),
{
    if targets.len() == 0 {
        (g, seq![])
    } else {
        let prev = sweep(g, modules, targets.drop_last());
        let p = targets.last();
        match forced(prev.0, modules, p) {
            Some(pl) => (prev.0.insert(p, pl), prev.1.push(p)),
            None => prev,
        }
    }
}

pub open spec fn placement_of<R>(modules: Seq<TerrainModule<R>>, m: usize) -> Placement {
    Placement { module: m, id: modules[m as int].id }
}

/// An empty catalog ends the run at once.
pub open spec fn abandoned(v: TerrainView) -> TerrainView {
    TerrainView {
        phase: Phase::Finished,
        stalemates: 0,
        warnings: v.warnings.push(TerrainWarning::NoModules),
        ..v
    }
}

/// The seed: module `m` at `p`, with `p` as the frontier.
pub open spec fn seeded<R>(
    v: TerrainView,
    modules: Seq<TerrainModule<R>>,
    m: usize,
    p: Position,
) -> TerrainView {
    TerrainView {
        grid: v.grid.insert(p, placement_of(modules, m)),
        phase: Phase::PlacedModules(seq![p]),
        stalemates: 0,
        ..v
    }
}

/// One propagation pass from `frontier`.
pub open spec fn propagated<R: GenerationRule>(
    v: TerrainView,
    modules: Seq<TerrainModule<R>>,
    frontier: Seq<Position>,
) -> TerrainView {
    let r = sweep(v.grid, modules, pass_targets(frontier, v.grid.width, v.grid.height));
    TerrainView {
        grid: r.0,
        phase: if r.1.len() > 0 {
            Phase::PlacedModules(r.1)
        } else if r.0.is_full() {
            Phase::Finished
        } else {
            Phase::Stalemate
        },
        stalemates: 0,
        ..v
    }
}

/// One recovery attempt at the empty cell `p`, placing `choice` if any.
pub open spec fn recovered<R>(
    v: TerrainView,
    modules: Seq<TerrainModule<R>>,
    p: Position,
    choice: Option<usize>,
) -> TerrainView {
    match choice {
        Some(m) => TerrainView {
            grid: v.grid.insert(p, placement_of(modules, m)),
            phase: Phase::PlacedModules(seq![p]),
            stalemates: 0,
            ..v
        },
        None => if v.stalemates + 1 > STALEMATE_LIMIT {
            TerrainView {
                phase: Phase::Finished,
                stalemates: v.stalemates + 1,
                warnings: v.warnings.push(TerrainWarning::StalemateExhausted),
                ..v
            }
        } else {
            TerrainView { stalemates: v.stalemates + 1, ..v }
        },
    }
}

/// `choice` is one of `allowed` when there is one, and nothing otherwise.
pub open spec fn picked(allowed: Seq<usize>, choice: Option<usize>) -> bool {
    if allowed.len() > 0 {
        choice is Some && allowed.contains(choice->0)
    } else {
        choice is None
    }
}

/// The transitions one step may take from `v`, whatever is drawn.
pub open spec fn step_to<R: GenerationRule>(
    v: TerrainView,
    modules: Seq<TerrainModule<R>>,
    next: TerrainView,
) -> bool {
    match v.phase {
        Phase::JustStarted => if modules.len() == 0 {
            next == abandoned(v)
        } else if v.grid.width == 0 || v.grid.height == 0 {
            next == (TerrainView { phase: Phase::Finished, stalemates: 0, ..v })
        } else {
            exists|m: usize, p: Position|
                m < modules.len() && v.grid.in_bounds(p) && next == seeded(v, modules, m, p)
        },
        Phase::PlacedModules(frontier) => next == propagated(v, modules, frontier),
        Phase::Stalemate => exists|p: Position, choice: Option<usize>|
            {
                &&& v.grid.in_bounds(p)
                &&& !v.grid.occupied(p)
                &&& picked(allowed_indices(modules, context(v.grid, p)), choice)
                &&& next == recovered(v, modules, p, choice)
            },
        Phase::Finished => next == v,
    }
}

/// Where a step draws nothing at random (a propagation pass, a finished
/// job, or a job that cannot place its seed) it has a single outcome.
pub proof fn lemma_undrawn_step_is_determined<R: GenerationRule>(
    v: TerrainView,
    modules: Seq<TerrainModule<R>>,
    a: TerrainView,
    b: TerrainView,
)
    requires
        step_to(v, modules, a),
        step_to(v, modules, b),
        !(v.phase is Stalemate),
        v.phase is JustStarted ==> (modules.len() == 0 || v.grid.width == 0 || v.grid.height == 0),
    ensures
        a == b,
{
}

/// The in-bounds neighbours of `pos` in a `width * height` grid, in the
/// order south, east, west, north.
pub fn get_adjacent_positions(pos: &Position, width: u32, height: u32) -> (r: Vec<Position>)
    ensures
        r@ == adjacent_seq(*pos, width as nat, height as nat),
        forall|j: int| 0 <= j < r@.len() ==> inside(#[trigger] r@[j], width as nat, height as nat),
{
    let ghost (w, h) = (width as nat, height as nat);
    let ghost (x, y) = (pos.x as int, pos.y as int);
    let mut r: Vec<Position> = Vec::new();
    if pos.x < width && (pos.y as u64) + 1 < height as u64 {
        r.push(Position { x: pos.x, y: pos.y + 1 });
    }
    assert(r@ =~= within(x, y + 1, w, h));
    if (pos.x as u64) + 1 < width as u64 && pos.y < height {
        r.push(Position { x: pos.x + 1, y: pos.y });
    }
    assert(r@ =~= within(x, y + 1, w, h) + within(x + 1, y, w, h));
    if pos.x > 0 && pos.x - 1 < width && pos.y < height {
        r.push(Position { x: pos.x - 1, y: pos.y });
    }
    assert(r@ =~= within(x, y + 1, w, h) + within(x + 1, y, w, h) + within(x - 1, y, w, h));
    if pos.x < width && pos.y > 0 && pos.y - 1 < height {
        r.push(Position { x: pos.x, y: pos.y - 1 });
    }
    assert(r@ =~= adjacent_seq(*pos, w, h));
    r
}

fn frontier_targets(frontier: &Vec<Position>, width: u32, height: u32) -> (r: Vec<Position>)
    ensures
        r@ == pass_targets(frontier@, width as nat, height as nat),
        forall|j: int| 0 <= j < r@.len() ==> inside(#[trigger] r@[j], width as nat, height as nat),
{
    let mut r: Vec<Position> = Vec::new();
    let mut i: usize = 0;
    while i < frontier.len()
        invariant
            i <= frontier@.len(),
            r@ == pass_targets(frontier@.take(i as int), width as nat, height as nat),
            forall|j: int|
                0 <= j < r@.len() ==> inside(#[trigger] r@[j], width as nat, height as nat),
        decreases frontier.len() - i,
    {
        proof {
            assert(frontier@.take(i + 1).drop_last() =~= frontier@.take(i as int));
        }
        let mut adj = get_adjacent_positions(&frontier[i], width, height);
        r.append(&mut adj);
        i = i + 1;
    }
    proof {
        assert(frontier@.take(i as int) =~= frontier@);
    }
    r
}

/// One generation job: its catalog, its grid and where it stands.
pub struct Terrain<R> {
    gen_type: GenerationType,
    grid: Grid,
    modules: Vec<TerrainModule<R>>,
    state: GenerationState,
    stalemates: u32,
    warnings: Vec<TerrainWarning>,
}

spec fn phase_of(s: GenerationState) -> Phase {
    match s {
        GenerationState::JustStarted => Phase::JustStarted,
        GenerationState::PlacedModules(f) => Phase::PlacedModules(f@),
        GenerationState::Stalemate => Phase::Stalemate,
        GenerationState::Finished => Phase::Finished,
    }
}

impl<R> View for Terrain<R> {
    type V = TerrainView;

    closed spec fn view(&self) -> TerrainView {
        TerrainView {
            grid: self.grid@,
            phase: phase_of(self.state),
            stalemates: self.stalemates as nat,
            warnings: self.warnings@,
        }
    }
}

/// A finished run whose catalog and grid are not empty either covers the
/// grid or has recorded that recovery was exhausted on a partial grid.
pub open spec fn complete_or_exhausted(v: TerrainView) -> bool {
    v.grid.is_full() || (v.warnings.contains(TerrainWarning::StalemateExhausted) && v.grid.count()
        < v.grid.area())
}

impl<R: GenerationRule> Terrain<R> {
    /// The catalog, in the order modules were added.
    pub closed spec fn catalog(&self) -> Seq<TerrainModule<R>> {
        self.modules@
    }

    pub closed spec fn wf(&self) -> bool {
        &&& self.grid.inv()
        &&& match self.state {
            GenerationState::JustStarted => {
                &&& self.stalemates == 0
                &&& forall|i: int| 0 <= i < self.grid@.cells.len() ==> self.grid@.cells[i] is None
            },
            GenerationState::PlacedModules(f) => {
                &&& self.stalemates == 0
                &&& forall|j: int| 0 <= j < f@.len() ==> self.grid@.in_bounds(#[trigger] f@[j])
            },
            GenerationState::Stalemate => {
                &&& self.stalemates <= STALEMATE_LIMIT
                &&& !self.grid@.is_full()
            },
            GenerationState::Finished => {
                &&& self.stalemates <= STALEMATE_LIMIT + 1
                &&& (self.modules.len() > 0 && self.grid@.area() > 0) ==> complete_or_exhausted(
                    self@,
                )
            },
        }
    }

    /// A job that has not started, with an empty catalog.
    pub fn new(gen_type: GenerationType, width: u32, height: u32) -> (r: Terrain<R>)
        requires
            width * height <= usize::MAX,
        ensures
            r.wf(),
            r.gen_type() == gen_type,
            r@.phase == Phase::JustStarted,
            r@.grid.width == width,
            r@.grid.height == height,
            r@.grid.count() == 0,
            r@.stalemates == 0,
            r@.warnings.len() == 0,
            r.catalog().len() == 0,
    {
        Terrain {
            gen_type,
            grid: Grid::new(width, height),
            modules: Vec::new(),
            state: GenerationState::JustStarted,
            stalemates: 0,
            warnings: Vec::new(),
        }
    }

    /// Adds `module` at the end of the catalog of a job that has not started.
    pub fn with_module(self, module: TerrainModule<R>) -> (r: Terrain<R>)
        requires
            self.wf(),
            self@.phase == Phase::JustStarted,
        ensures
            r.wf(),
            r@ == self@,
            r.gen_type() == self.gen_type(),
            r.catalog() == self.catalog().push(module),
    {
        let mut t = self;
        t.modules.push(module);
        t
    }

    pub closed spec fn gen_type(&self) -> GenerationType {
        self.gen_type
    }

    /// Places the seed: module `m` at `p`.
    fn start_at(&mut self, m: usize, p: Position)
        requires
            old(self).wf(),
            old(self)@.phase == Phase::JustStarted,
            m < old(self).catalog().len(),
            old(self)@.grid.in_bounds(p),
        ensures
            final(self).wf(),
            final(self)@ == seeded(old(self)@, old(self).catalog(), m, p),
            final(self).catalog() == old(self).catalog(),
            final(self).gen_type() == old(self).gen_type(),
            old(self)@.grid.kept_in(final(self)@.grid),
    {
        proof {
            crate::grid::lemma_index_in_range(
                self.grid@.width,
                self.grid@.height,
                p.x as int,
                p.y as int,
            );
            self.grid.lemma_inv();
        }
        let id = self.modules[m].id;
        self.grid.insert(p, Placement { module: m, id });
        let f = vec![p];
        assert(f@ =~= seq![p]);
        self.state = GenerationState::PlacedModules(f);
        self.stalemates = 0;
    }

    /// One propagation pass over `frontier`.
    fn propagate(&mut self, frontier: Vec<Position>)
        requires
            old(self).grid.inv(),
            forall|j: int| 0 <= j < frontier@.len() ==> old(self)@.grid.in_bounds(#[trigger] frontier@[j]),
        ensures
            final(self).wf(),
            final(self)@ == propagated(old(self)@, old(self).catalog(), frontier@),
            final(self).catalog() == old(self).catalog(),
            final(self).gen_type() == old(self).gen_type(),
            old(self)@.grid.kept_in(final(self)@.grid),
    {
        let ghost g0 = self.grid@;
        let targets = frontier_targets(&frontier, self.grid.width(), self.grid.height());
        let mut placed: Vec<Position> = Vec::new();
        let mut k: usize = 0;
        while k < targets.len()
            invariant
                k <= targets@.len(),
                self.grid.inv(),
                self.modules@ == old(self).modules@,
                self.gen_type == old(self).gen_type,
                self.stalemates == old(self).stalemates,
                self.warnings@ == old(self).warnings@,
                g0 == old(self).grid@,
                targets@ == pass_targets(frontier@, g0.width, g0.height),
                forall|j: int| 0 <= j < targets@.len() ==> inside(#[trigger] targets@[j], g0.width, g0.height),
                sweep(g0, self.modules@, targets@.take(k as int)) == (self.grid@, placed@),
                g0.kept_in(self.grid@),
                forall|j: int| 0 <= j < placed@.len() ==> self.grid@.in_bounds(#[trigger] placed@[j]),
            decreases targets.len() - k,
        {
            proof {
                assert(targets@.take(k + 1).drop_last() =~= targets@.take(k as int));
            }
            let p = targets[k];
            assert(inside(targets@[k as int], g0.width, g0.height));
            match self.grid.get(p) {
                Some(_) => {},
                None => {
                    let c = candidates(p, &self.grid, &self.modules);
                    if c.len() == 1 {
                        let m = c[0];
                        let id = self.modules[m].id;
                        let ghost before = self.grid@;
                        self.grid.insert(p, Placement { module: m, id });
                        proof {
                            lemma_kept_in_trans(g0, before, self.grid@);
                        }
                        placed.push(p);
                    }
                },
            }
            k = k + 1;
        }
        proof {
            assert(targets@.take(k as int) =~= targets@);
        }
        if placed.len() > 0 {
            self.state = GenerationState::PlacedModules(placed);
        } else if self.grid.is_full() {
            self.state = GenerationState::Finished;
        } else {
            self.state = GenerationState::Stalemate;
        }
        self.stalemates = 0;
    }

    /// One recovery attempt. The cell is drawn uniformly among the empty
    /// cells, which is the law of drawing cells until an empty one comes up;
    /// it receives one of the modules that fit there, drawn at random.
    fn recover(&mut self, rng: &mut StdRng)
        requires
            old(self).wf(),
            old(self)@.phase == Phase::Stalemate,
        ensures
            final(self).wf(),
            step_to(old(self)@, old(self).catalog(), final(self)@),
            final(self).catalog() == old(self).catalog(),
            final(self).gen_type() == old(self).gen_type(),
            old(self)@.grid.kept_in(final(self)@.grid),
    {
        proof {
            self.grid.lemma_inv();
        }
        let ghost v0 = self@;
        let free = (self.grid.width() as usize) * (self.grid.height() as usize) - self.grid.count();
        let k = random_below(rng, free);
        let p = self.grid.nth_empty(k);
        let c = candidates(p, &self.grid, &self.modules);
        self.stalemates = self.stalemates + 1;
        if c.len() > 0 {
            let m = choose_one(&c, rng);
            proof {
                let j = choose|j: int| 0 <= j < c@.len() && c@[j] == m;
                assert(c@[j] < self.modules@.len());
            }
            let id = self.modules[m].id;
            self.grid.insert(p, Placement { module: m, id });
            let f = vec![p];
            assert(f@ =~= seq![p]);
            self.state = GenerationState::PlacedModules(f);
            self.stalemates = 0;
            proof {
                assert(self@ == recovered(v0, self.modules@, p, Some(m)));
                assert(picked(allowed_indices(self.modules@, context(v0.grid, p)), Some(m)));
            }
        } else {
            if self.stalemates > STALEMATE_LIMIT {
                self.warnings.push(TerrainWarning::StalemateExhausted);
                self.state = GenerationState::Finished;
                proof {
                    assert(self@.warnings.last() == TerrainWarning::StalemateExhausted);
                }
            }
            proof {
                assert(self@ == recovered(v0, self.modules@, p, None));
                assert(picked(allowed_indices(self.modules@, context(v0.grid, p)), None));
            }
        }
    }

    /// Advances the job by one tick and tells whether it has finished.
    /// Occupied cells keep their occupant.
    pub fn step(&mut self, rng: &mut StdRng) -> (done: bool)
        requires
            old(self).wf(),
        ensures
            final(self).wf(),
            step_to(old(self)@, old(self).catalog(), final(self)@),
            old(self)@.grid.kept_in(final(self)@.grid),
            final(self).catalog() == old(self).catalog(),
            final(self).gen_type() == old(self).gen_type(),
            done == (final(self)@.phase == Phase::Finished),
    {
        let mut state = GenerationState::Finished;
        std::mem::swap(&mut self.state, &mut state);
        match state {
            GenerationState::JustStarted => {
                if self.modules.len() == 0 {
                    self.warnings.push(TerrainWarning::NoModules);
                    self.state = GenerationState::Finished;
                    self.stalemates = 0;
                } else if self.grid.width() == 0 || self.grid.height() == 0 {
                    self.state = GenerationState::Finished;
                    self.stalemates = 0;
                    proof {
                        assert(self.grid@.area() == 0);
                    }
                } else {
                    let mut all: Vec<usize> = Vec::new();
                    let mut i: usize = 0;
                    while i < self.modules.len()
                        invariant
                            i <= self.modules@.len(),
                            all@.len() == i,
                            forall|j: int| 0 <= j < i ==> all@[j] == j,
                        decreases self.modules.len() - i,
                    {
                        all.push(i);
                        i = i + 1;
                    }
                    let m = choose_one(&all, rng);
                    let x = random_below(rng, self.grid.width() as usize) as u32;
                    let y = random_below(rng, self.grid.height() as usize) as u32;
                    self.state = GenerationState::JustStarted;
                    let ghost v0 = self@;
                    self.start_at(m, Position { x, y });
                    assert(m < self.modules@.len() && v0.grid.in_bounds(Position { x, y })
                        && self@ == seeded(v0, self.modules@, m, Position { x, y }));
                }
            },
            GenerationState::PlacedModules(frontier) => {
                self.propagate(frontier);
            },
            GenerationState::Stalemate => {
                self.state = GenerationState::Stalemate;
                self.recover(rng);
            },
            GenerationState::Finished => {},
        }
        self.is_finished()
    }

    /// Whether the job has finished.
    pub fn is_finished(&self) -> (r: bool)
        ensures
            r == (self@.phase == Phase::Finished),
    {
        match self.state {
            GenerationState::Finished => true,
            _ => false,
        }
    }

    /// The warnings recorded so far, oldest first.
    pub fn warnings(&self) -> (r: &Vec<TerrainWarning>)
        ensures
            r@ == self@.warnings,
    {
        &self.warnings
    }

    /// The grid as it stands.
    pub fn grid(&self) -> (r: &Grid)
        requires
            self.wf(),
        ensures
            r@ == self@.grid,
            r.inv(),
    {
        &self.grid
    }

    /// Consecutive fruitless recovery attempts so far.
    pub fn stalemates(&self) -> (r: u32)
        ensures
            r == self@.stalemates,
    {
        self.stalemates
    }

    /// The catalog.
    pub fn modules(&self) -> (r: &Vec<TerrainModule<R>>)
        ensures
            r@ == self.catalog(),
    {
        &self.modules
    }

    pub fn generation_type(&self) -> (r: GenerationType)
        ensures
            r == self.gen_type(),
    {
        self.gen_type
    }

    /// Ends the job, handing over its grid.
    pub fn into_grid(self) -> (r: Grid)
        requires
            self.wf(),
        ensures
            r@ == self@.grid,
            r.inv(),
    {
        self.grid
    }

    /// A finished job whose catalog and grid are not empty either covered
    /// every cell, or recorded that recovery was exhausted and left at least
    /// one cell empty.
    pub proof fn lemma_finished_is_complete_or_exhausted(&self)
        requires
            self.wf(),
            self@.phase == Phase::Finished,
            self.catalog().len() > 0,
            self@.grid.width > 0,
            self@.grid.height > 0,
        ensures
            self@.grid.count() == self@.grid.area() || (self@.warnings.contains(
                TerrainWarning::StalemateExhausted,
            ) && self@.grid.count() < self@.grid.area()),
    {
        assert(self@.grid.area() > 0) by (nonlinear_arith)
            requires
                self@.grid.width > 0,
                self@.grid.height > 0,
        ;
    }

}

impl<R: GenerationRule> Default for Terrain<R> {
    /// A job of no extent with an empty catalog.
    fn default() -> (r: Terrain<R>)
        ensures
            r.wf(),
            r.gen_type() == GenerationType::WaveCollapse,
            r@.phase == Phase::JustStarted,
            r@.grid.width == 0,
            r@.grid.height == 0,
            r@.warnings.len() == 0,
            r.catalog().len() == 0,
    {
        Terrain::new(GenerationType::WaveCollapse, 0, 0)
    }
}

} // verus!
