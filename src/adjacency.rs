//! Neighbour contexts, module rules and the candidate filter.
use vstd::prelude::*;
use crate::grid::{Grid, GridModel, Placement, Position};

verus! {

/// Identifiers of the modules occupying the four cardinal cells of a
/// position; absent where the cell lies outside the grid or is still empty.
#[derive(Clone, Copy, PartialEq, Eq, Structural, Debug)]
pub struct Adjacents {
    pub n: Option<u32>,
    pub s: Option<u32>,
    pub e: Option<u32>,
    pub w: Option<u32>,
}

pub open spec fn id_of(c: Option<Placement>) -> Option<u32> {
    match c {
        Some(pl) => Some(pl.id),
        None => None,
    }
}

/// The neighbour context of `p` in `g`: north is `y - 1`, south `y + 1`,
/// east `x + 1` and west `x - 1`.
pub open spec fn context(g: GridModel, p: Position) -> Adjacents {
    Adjacents {
        n: id_of(g.cell(p.x as int, p.y - 1)),
        s: id_of(g.cell(p.x as int, p.y + 1)),
        e: id_of(g.cell(p.x + 1, p.y as int)),
        w: id_of(g.cell(p.x - 1, p.y as int)),
    }
}

/// The context of the corner `(0, 0)` never has a northern or western
/// neighbour, whatever the grid holds.
pub proof fn lemma_origin_has_no_north_or_west(g: GridModel)
    ensures
        context(g, Position { x: 0, y: 0 }).n is None,
        context(g, Position { x: 0, y: 0 }).w is None,
{
}

/// Whether `ids` (when constrained) admits the neighbour `n`; an absent
/// neighbour is always admitted.
pub open spec fn admits(ids: Option<Seq<u32>>, n: Option<u32>) -> bool {
    match n {
        None => true,
        Some(id) => match ids {
            None => true,
            Some(l) => l.contains(id),
        },
    }
}

impl Adjacents {
    pub open spec fn spec_has_any(self) -> bool {
        self.n is Some || self.s is Some || self.e is Some || self.w is Some
    }

    pub open spec fn spec_all_are(self, ids: Seq<u32>) -> bool {
        &&& admits(Some(ids), self.n)
        &&& admits(Some(ids), self.s)
        &&& admits(Some(ids), self.e)
        &&& admits(Some(ids), self.w)
    }

    /// The context of `pos` in `grid`.
    pub fn get(pos: Position, grid: &Grid) -> (r: Adjacents)
        requires
            grid.inv(),
        ensures
            r == context(grid@, pos),
    {
        let n = if pos.y != 0 {
            grid.cell(pos.x as u64, pos.y as u64 - 1)
        } else {
            None
        };
        let w = if pos.x != 0 {
            grid.cell(pos.x as u64 - 1, pos.y as u64)
        } else {
            None
        };
        let s = grid.cell(pos.x as u64, pos.y as u64 + 1);
        let e = grid.cell(pos.x as u64 + 1, pos.y as u64);
        Adjacents { n: ident(n), s: ident(s), e: ident(e), w: ident(w) }
    }

    /// Whether any neighbour is present.
    pub fn has_any(&self) -> (r: bool)
        ensures
            r == self.spec_has_any(),
    {
        self.n.is_some() || self.s.is_some() || self.e.is_some() || self.w.is_some()
    }

    /// Whether every present neighbour has an identifier in `ids`.
    pub fn all_are(&self, ids: &Vec<u32>) -> (r: bool)
        ensures
            r == self.spec_all_are(ids@),
    {
        admits_id(ids, self.n) && admits_id(ids, self.s) && admits_id(ids, self.e) && admits_id(
            ids,
            self.w,
        )
    }

    /// The four neighbours in the order north, south, east, west.
    pub fn list(&self) -> (r: Vec<Option<u32>>)
        ensures
            r@ == seq![self.n, self.s, self.e, self.w],
    {
        let r = vec![self.n, self.s, self.e, self.w];
        assert(r@ =~= seq![self.n, self.s, self.e, self.w]);
        r
    }
}

fn ident(c: Option<Placement>) -> (r: Option<u32>)
    ensures
        r == id_of(c),
{
    match c {
        Some(pl) => Some(pl.id),
        None => None,
    }
}

pub open spec fn view_ids(ids: Option<Vec<u32>>) -> Option<Seq<u32>> {
    match ids {
        Some(v) => Some(v@),
        None => None,
    }
}

fn contains_id(ids: &Vec<u32>, id: u32) -> (r: bool)
    ensures
        r == ids@.contains(id),
{
    let mut i: usize = 0;
    while i < ids.len()
        invariant
            i <= ids@.len(),
            forall|j: int| 0 <= j < i ==> ids@[j] != id,
        decreases ids.len() - i,
    {
        if ids[i] == id {
            return true;
        }
        i = i + 1;
    }
    false
}

fn admits_id(ids: &Vec<u32>, n: Option<u32>) -> (r: bool)
    ensures
        r == admits(Some(ids@), n),
{
    match n {
        None => true,
        Some(id) => contains_id(ids, id),
    }
}

fn admits_opt(ids: &Option<Vec<u32>>, n: Option<u32>) -> (r: bool)
    ensures
        r == admits(view_ids(*ids), n),
{
    match ids {
        None => true,
        Some(l) => admits_id(l, n),
    }
}

/// A placement rule: a pure predicate on a neighbour context.
pub trait GenerationRule {
    spec fn allows(&self, adj: Adjacents) -> bool;

    fn evaluate(&self, adj: &Adjacents) -> (r: bool)
        ensures
            r == self.allows(*adj),
    ;
}

/// Evaluating a rule twice on equal contexts gives the same answer.
pub proof fn lemma_rule_is_pure<R: GenerationRule>(rule: &R, a: Adjacents, b: Adjacents)
    requires
        a == b,
    ensures
        rule.allows(a) == rule.allows(b),
{
}

/// A rule given by lists of admitted neighbour identifiers per direction.
/// `None` leaves a direction unconstrained, and an absent neighbour never
/// forbids placement; `isolated` decides a cell without any neighbour.
#[derive(Clone, Debug)]
pub struct AdjacencyRule {
    pub north: Option<Vec<u32>>,
    pub south: Option<Vec<u32>>,
    pub east: Option<Vec<u32>>,
    pub west: Option<Vec<u32>>,
    pub isolated: bool,
}

impl AdjacencyRule {
    pub open spec fn spec_allows(&self, adj: Adjacents) -> bool {
        if !adj.spec_has_any() {
            self.isolated
        } else {
            &&& admits(view_ids(self.north), adj.n)
            &&& admits(view_ids(self.south), adj.s)
            &&& admits(view_ids(self.east), adj.e)
            &&& admits(view_ids(self.west), adj.w)
        }
    }
}

impl GenerationRule for AdjacencyRule {
    open spec fn allows(&self, adj: Adjacents) -> bool {
        self.spec_allows(adj)
    }

    fn evaluate(&self, adj: &Adjacents) -> (r: bool) {
        if !adj.has_any() {
            self.isolated
        } else {
            admits_opt(&self.north, adj.n) && admits_opt(&self.south, adj.s)
                && admits_opt(&self.east, adj.e) && admits_opt(&self.west, adj.w)
        }
    }
}

/// A placeable module: its rule, its identifier and an opaque payload that
/// is handed back untouched.
#[derive(Clone, Debug)]
pub struct TerrainModule<R> {
    pub generation_rule: R,
    pub id: u32,
    pub payload: u64,
}

/// Catalog indices, in catalog order, of the modules whose rule accepts `adj`.
pub open spec fn allowed_indices<R: GenerationRule>(
    modules: Seq<TerrainModule<R>>,
    adj: Adjacents,
) -> Seq<usize>
    decreases modules.len(),
{
    if modules.len() == 0 {
        seq![]
    } else {
        let prev = allowed_indices(modules.drop_last(), adj);
        if modules.last().generation_rule.allows(adj) {
            prev.push((modules.len() - 1) as usize)
        } else {
            prev
        }
    }
}

pub proof fn lemma_allowed_indices_in_range<R: GenerationRule>(
    modules: Seq<TerrainModule<R>>,
    adj: Adjacents,
)
    ensures
        forall|k: int|
            0 <= k < allowed_indices(modules, adj).len() ==> #[trigger] allowed_indices(
                modules,
                adj,
            )[k] < modules.len(),
    decreases modules.len(),
{
    if modules.len() > 0 {
        let prev = allowed_indices(modules.drop_last(), adj);
        lemma_allowed_indices_in_range(modules.drop_last(), adj);
        assert forall|k: int| 0 <= k < prev.len() implies prev[k] < modules.len() by {
            assert(prev[k] < modules.drop_last().len());
        }
    }
}

/// The modules that may occupy `pos`, as catalog indices in catalog order.
pub fn candidates<R: GenerationRule>(
    pos: Position,
    grid: &Grid,
    modules: &Vec<TerrainModule<R>>,
) -> (r: Vec<usize>)
    requires
        grid.inv(),
    ensures
        r@ == allowed_indices(modules@, context(grid@, pos)),
        forall|k: int| 0 <= k < r@.len() ==> #[trigger] r@[k] < modules@.len(),
{
    let adj = Adjacents::get(pos, grid);
    let mut r: Vec<usize> = Vec::new();
    let mut i: usize = 0;
    while i < modules.len()
        invariant
            i <= modules@.len(),
            adj == context(grid@, pos),
            r@ == allowed_indices(modules@.take(i as int), adj),
        decreases modules.len() - i,
    {
        proof {
            assert(modules@.take(i + 1).drop_last() =~= modules@.take(i as int));
        }
        if modules[i].generation_rule.evaluate(&adj) {
            r.push(i);
        }
        i = i + 1;
    }
    proof {
        assert(modules@.take(i as int) =~= modules@);
        lemma_allowed_indices_in_range(modules@, adj);
    }
    r
}

} // verus!
