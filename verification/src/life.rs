//! The simulation state and the generation stepper.
//!
//! A generation is a sparse set of live coordinates; everything absent is
//! dead. One step evaluates exactly the frontier (live cells and their
//! neighbors), counts live neighbors per frontier cell, and applies the
//! transition rule to produce the next live-set.

use vstd::prelude::*;
use vstd::string::StrSliceExecFns;
use crate::point::Point;
use crate::point::in_bounds;
use crate::point::in_interior;
use crate::point::is_adjacent;
use crate::point::is_neighbor;
use crate::point::lemma_adjacent_in_bounds;
use crate::point::pow3;

verus! {

broadcast use vstd::set::group_set_axioms, vstd::seq_lib::seq_to_set_is_finite;

/// The state of one lattice cell.
#[derive(Debug, Clone, Copy, PartialEq, Eq, Structural)]
pub enum State {
    Alive,
    Dead,
}

/// A transition rule: a pure function of the current state and the
/// live-neighbor count. Rules are values so that a variant automaton can
/// carry its own configuration; the stepper never changes them.
pub trait Rule: Sized + Copy {
    /// The transition the rule denotes, on the mathematical level:
    /// whether a cell in state `alive` with `live_neighbors` live neighbors
    /// is alive in the next generation.
    spec fn rule_spec(&self, alive: bool, live_neighbors: nat) -> bool;

    /// Apply the rule to one cell.
    fn eval(&self, current: State, live_neighbors: usize) -> (next: State)
        ensures
            next is Alive <==> self.rule_spec(current is Alive, live_neighbors as nat),
    ;
}

/// The standard Life rule: a live cell survives with 2 or 3 live neighbors,
/// a dead cell is born with exactly 3.
#[derive(Debug, Clone, Copy, PartialEq, Eq, Structural)]
pub struct StandardRule;

impl Rule for StandardRule {
    open spec fn rule_spec(&self, alive: bool, live_neighbors: nat) -> bool {
        if alive {
            live_neighbors == 2 || live_neighbors == 3
        } else {
            live_neighbors == 3
        }
    }

    fn eval(&self, current: State, live_neighbors: usize) -> (next: State) {
        match current {
            State::Alive => if live_neighbors == 2 || live_neighbors == 3 {
                State::Alive
            } else {
                State::Dead
            },
            State::Dead => if live_neighbors == 3 {
                State::Alive
            } else {
                State::Dead
            },
        }
    }
}

/// A sparse set of live coordinates: unordered, no duplicates, every member
/// of one fixed dimensionality.
pub struct LiveSet {
    dim: usize,
    cells: Vec<Point>,
}

impl View for LiveSet {
    type V = Set<Seq<i32>>;

    /// The mathematical set of member coordinates.
    closed spec fn view(&self) -> Set<Seq<i32>> {
        self.cells@.map_values(|p: Point| p@).to_set()
    }
}

impl LiveSet {
    /// The dimensionality every member has.
    pub closed spec fn dim(&self) -> nat {
        self.dim as nat
    }

    /// Well-formed: a positive dimensionality, every member of that length,
    /// no member listed twice.
    pub closed spec fn wf(&self) -> bool {
        &&& self.dim >= 1
        &&& forall|i: int|
            0 <= i < self.cells@.len() ==> (#[trigger] self.cells@[i])@.len() == self.dim as nat
        &&& forall|i: int, j: int|
            #![trigger self.cells@[i], self.cells@[j]]
            0 <= i < j < self.cells@.len() ==> self.cells@[i]@ != self.cells@[j]@
    }

    /// A member set is always finite.
    pub proof fn lemma_finite(&self)
        ensures
            self@.finite(),
    {
    }

    /// Every member's length is the set's dimensionality.
    pub proof fn lemma_members_wf(&self)
        requires
            self.wf(),
        ensures
            forall|q: Seq<i32>| #[trigger] self@.contains(q) ==> q.len() == self.dim(),
    {
        let vs = self.cells@.map_values(|p: Point| p@);
        assert forall|q: Seq<i32>| #[trigger] self@.contains(q) implies q.len() == self.dim() by {
            let i = choose|i: int| 0 <= i < vs.len() && vs[i] == q;
            assert(self.cells@[i]@.len() == self.dim as nat);
        }
    }

    /// The empty live-set of dimensionality `dim`: total extinction.
    pub fn empty(dim: usize) -> (r: LiveSet)
        requires
            dim >= 1,
        ensures
            r.wf(),
            r.dim() == dim,
            r@ == Set::<Seq<i32>>::empty(),
    {
        let r = LiveSet { dim, cells: Vec::new() };
        proof {
            assert(r@ =~= Set::<Seq<i32>>::empty());
        }
        r
    }

    /// Membership: whether `p` is alive.
    pub fn contains(&self, p: &Point) -> (r: bool)
        ensures
            r == self@.contains(p@),
    {
        let ghost vs = self.cells@.map_values(|pt: Point| pt@);
        let mut i: usize = 0;
        while i < self.cells.len()
            invariant
                i <= self.cells@.len(),
                vs == self.cells@.map_values(|pt: Point| pt@),
                forall|j: int| 0 <= j < i ==> (#[trigger] self.cells@[j])@ != p@,
            decreases self.cells@.len() - i,
        {
            if self.cells[i] == *p {
                proof {
                    assert(vs[i as int] == p@);
                    assert(vs.contains(p@));
                }
                return true;
            }
            i += 1;
        }
        proof {
            if self@.contains(p@) {
                assert(vs.contains(p@));
                let j = choose|j: int| 0 <= j < vs.len() && vs[j] == p@;
                assert(self.cells@[j]@ == p@);
                assert(false);
            }
        }
        false
    }

    /// Add a coordinate; membership is unchanged if it is already present.
    pub fn insert(&mut self, p: Point)
        requires
            old(self).wf(),
            p@.len() == old(self).dim(),
        ensures
            final(self).wf(),
            final(self).dim() == old(self).dim(),
            final(self)@ == old(self)@.insert(p@),
    {
        let ghost pv = p@;
        let present = self.contains(&p);
        if !present {
            proof {
                let oldvs = self.cells@.map_values(|pt: Point| pt@);
                if oldvs.contains(pv) {
                    let j = choose|j: int| 0 <= j < oldvs.len() && oldvs[j] == pv;
                    assert(false);
                }
                assert(forall|j: int|
                    0 <= j < oldvs.len() ==> oldvs[j] != pv);
            }
            self.cells.push(p);
            proof {
                let oldvs = old(self).cells@.map_values(|pt: Point| pt@);
                let vs = self.cells@.map_values(|pt: Point| pt@);
                assert(vs =~= oldvs.push(pv));
                assert forall|q: Seq<i32>| vs.contains(q) implies oldvs.contains(q) || q == pv by {
                    let j = choose|j: int| 0 <= j < vs.len() && vs[j] == q;
                    if j < oldvs.len() {
                        assert(oldvs[j] == q);
                        assert(oldvs.contains(q));
                    }
                }
                assert forall|q: Seq<i32>| oldvs.contains(q) implies vs.contains(q) by {
                    let j = choose|j: int| 0 <= j < oldvs.len() && oldvs[j] == q;
                    assert(vs[j] == q);
                }
                assert(vs.contains(pv)) by {
                    assert(vs[vs.len() - 1] == pv);
                }
                assert(self@ =~= old(self)@.insert(pv));
                assert forall|i: int, j: int|
                    #![trigger self.cells@[i], self.cells@[j]]
                    0 <= i < j < self.cells@.len() implies self.cells@[i]@ != self.cells@[j]@ by {
                    if j < old(self).cells@.len() {
                        assert(old(self).cells@[i]@ != old(self).cells@[j]@);
                    } else {
                        assert(self.cells@[j]@ == pv);
                        assert(oldvs[i] == self.cells@[i]@);
                        assert(oldvs[i] != pv);
                    }
                }
                assert forall|i: int|
                    0 <= i < self.cells@.len() implies (#[trigger] self.cells@[i])@.len()
                    == self.dim as nat by {
                    if i < old(self).cells@.len() {
                        assert(old(self).cells@[i]@.len() == self.dim as nat);
                    }
                }
            }
        } else {
            proof {
                assert(old(self)@.insert(pv) =~= old(self)@);
            }
        }
    }

    /// The number of live cells.
    pub fn len(&self) -> (n: usize)
        requires
            self.wf(),
        ensures
            n == self@.len(),
    {
        proof {
            let vs = self.cells@.map_values(|pt: Point| pt@);
            assert(vs.no_duplicates()) by {
                assert forall|i: int, j: int|
                    0 <= i < vs.len() && 0 <= j < vs.len() && i != j implies vs[i] != vs[j] by {
                    if i < j {
                        assert(self.cells@[i]@ != self.cells@[j]@);
                    } else {
                        assert(self.cells@[j]@ != self.cells@[i]@);
                    }
                }
            }
            vs.unique_seq_to_set();
        }
        self.cells.len()
    }
}

/// A cell of the member list is a member of the set.
proof fn lemma_cell_in_view(ls: &LiveSet, i: int)
    requires
        0 <= i < ls.cells@.len(),
    ensures
        ls@.contains(ls.cells@[i]@),
{
    let vs = ls.cells@.map_values(|p: Point| p@);
    assert(vs[i] == ls.cells@[i]@);
    assert(vs.contains(ls.cells@[i]@));
}

/// The frontier of a live-set: every coordinate within Chebyshev distance 1
/// of some live cell, the live cells themselves included. No cell outside it
/// can change state in the coming generation.
pub open spec fn frontier_of(ls: Set<Seq<i32>>) -> Set<Seq<i32>> {
    Set::new(|q: Seq<i32>| exists|p: Seq<i32>| #[trigger] ls.contains(p) && is_adjacent(p, q))
}

/// The live cells among the proper neighbors of `q`.
pub open spec fn live_neighbors_of(ls: Set<Seq<i32>>, q: Seq<i32>) -> Set<Seq<i32>> {
    ls.filter(|p: Seq<i32>| is_neighbor(q, p))
}

/// How many live neighbors `q` has (`q` itself never counted).
pub open spec fn live_neighbor_count(ls: Set<Seq<i32>>, q: Seq<i32>) -> nat {
    live_neighbors_of(ls, q).len()
}

/// One generation: exactly those frontier coordinates whose rule outcome,
/// from their current state and live-neighbor count, is alive.
pub open spec fn step_spec<R: Rule>(ls: Set<Seq<i32>>, rule: R) -> Set<Seq<i32>> {
    frontier_of(ls).filter(
        |q: Seq<i32>| rule.rule_spec(ls.contains(q), live_neighbor_count(ls, q)),
    )
}

/// Every live cell leaves room for a +/-1 offset on every axis.
pub open spec fn all_in_bounds(ls: Set<Seq<i32>>) -> bool {
    forall|p: Seq<i32>| #[trigger] ls.contains(p) ==> in_bounds(p)
}

/// Every live cell leaves room for a +/-2 offset on every axis, so a whole
/// generation step stays within `i32` on every axis.
pub open spec fn all_in_interior(ls: Set<Seq<i32>>) -> bool {
    forall|p: Seq<i32>| #[trigger] ls.contains(p) ==> in_interior(p)
}

/// The lattice cell a plate character at `row`, `col` seeds: those indices
/// on the two leading axes, zero on every further axis.
pub open spec fn plate_cell(dim: nat, row: int, col: int) -> Seq<i32> {
    Seq::new(
        dim,
        |i: int|
            if i == 0 {
                row as i32
            } else if i == 1 {
                col as i32
            } else {
                0i32
            },
    )
}

/// The live-set a plate of text rows denotes: one cell per `'#'` character.
pub open spec fn plate_live(dim: nat, plate: Seq<Seq<char>>) -> Set<Seq<i32>> {
    Set::new(
        |q: Seq<i32>|
            exists|r: int, c: int|
                #![trigger plate_cell(dim, r, c)]
                {
                    &&& 0 <= r < plate.len()
                    &&& 0 <= c < plate[r].len()
                    &&& plate[r][c] == '#'
                    &&& q == plate_cell(dim, r, c)
                },
    )
}

/// Plate rows as character sequences.
pub open spec fn rows_view(plate: Seq<&str>) -> Seq<Seq<char>> {
    plate.map_values(|s: &str| s@)
}

/// The part of a plate's live-set read so far: every row before `rr`, and
/// the first `cc` columns of row `rr`.
spec fn plate_live_upto(dim: nat, plate: Seq<Seq<char>>, rr: int, cc: int) -> Set<Seq<i32>> {
    Set::new(
        |q: Seq<i32>|
            exists|r: int, c: int|
                #![trigger plate_cell(dim, r, c)]
                {
                    &&& 0 <= r < plate.len()
                    &&& 0 <= c < plate[r].len()
                    &&& r < rr || (r == rr && c < cc)
                    &&& plate[r][c] == '#'
                    &&& q == plate_cell(dim, r, c)
                },
    )
}

/// The live members of `ls` seen among the first `j` entries of `nbrs`.
spec fn prefix_live(ls: Set<Seq<i32>>, nbrs: Seq<Point>, j: int) -> Set<Seq<i32>> {
    Set::new(
        |p: Seq<i32>|
            ls.contains(p) && exists|kk: int| 0 <= kk < j && (#[trigger] nbrs[kk])@ == p,
    )
}

/// One simulation instance: the current live-set and the fixed rule. Each
/// step produces a new instance; the input instance is never mutated.
pub struct Life<R: Rule> {
    alive: LiveSet,
    rule: R,
}

impl<R: Rule> View for Life<R> {
    type V = Set<Seq<i32>>;

    /// The set of currently live coordinates.
    closed spec fn view(&self) -> Set<Seq<i32>> {
        self.alive@
    }
}

impl<R: Rule> Life<R> {
    pub closed spec fn wf(&self) -> bool {
        self.alive.wf()
    }

    /// The dimensionality of the lattice this instance simulates.
    pub closed spec fn dim(&self) -> nat {
        self.alive.dim()
    }

    /// The transition rule this instance applies, fixed for its lifetime.
    pub closed spec fn rule(&self) -> R {
        self.rule
    }

    /// The live-set is always finite.
    pub proof fn lemma_finite(&self)
        ensures
            self@.finite(),
    {
        self.alive.lemma_finite();
    }

    /// Every live coordinate has the instance's dimensionality.
    pub proof fn lemma_members_wf(&self)
        requires
            self.wf(),
        ensures
            forall|q: Seq<i32>| #[trigger] self@.contains(q) ==> q.len() == self.dim(),
    {
        self.alive.lemma_members_wf();
    }

    /// A simulation over `initial`'s live cells, stepped by `rule`.
    pub fn new(initial: LiveSet, rule: R) -> (r: Life<R>)
        requires
            initial.wf(),
        ensures
            r.wf(),
            r.dim() == initial.dim(),
            r.rule() == rule,
            r@ == initial@,
    {
        Life { alive: initial, rule }
    }

    /// Seed a simulation from rows of text: `'#'` marks a live cell, any
    /// other character a dead one. Row index maps to axis 0, column index to
    /// axis 1; all further axes are zero.
    #[verifier::loop_isolation(false)]
    pub fn from_plate(dim: usize, plate: &Vec<&str>, rule: R) -> (r: Life<R>)
        requires
            dim >= 2,
            plate@.len() <= i32::MAX,
            forall|rr: int| 0 <= rr < plate@.len() ==> (#[trigger] plate@[rr])@.len() <= i32::MAX,
        ensures
            r.wf(),
            r.dim() == dim,
            r.rule() == rule,
            r@ == plate_live(dim as nat, rows_view(plate@)),
    {
        let ghost pv = rows_view(plate@);
        let mut ls = LiveSet::empty(dim);
        let mut row: usize = 0;
        while row < plate.len()
            invariant
                row <= plate@.len(),
                ls.wf(),
                ls.dim() == dim,
                ls@ =~= plate_live_upto(dim as nat, pv, row as int, 0),
            decreases plate@.len() - row,
        {
            let line: &str = plate[row];
            proof {
                assert(line@ == pv[row as int]);
            }
            let n = line.unicode_len();
            let mut col: usize = 0;
            while col < n
                invariant
                    col <= n,
                    n == pv[row as int].len(),
                    row < plate@.len(),
                    ls.wf(),
                    ls.dim() == dim,
                    ls@ =~= plate_live_upto(dim as nat, pv, row as int, col as int),
                decreases n - col,
            {
                let ch = line.get_char(col);
                if ch == '#' {
                    let p = Point::from_duple(dim, row as i32, col as i32);
                    proof {
                        assert(p@ =~= plate_cell(dim as nat, row as int, col as int));
                    }
                    ls.insert(p);
                    proof {
                        assert(ls@ =~= plate_live_upto(
                            dim as nat,
                            pv,
                            row as int,
                            col as int + 1,
                        ));
                    }
                } else {
                    proof {
                        assert(ls@ =~= plate_live_upto(
                            dim as nat,
                            pv,
                            row as int,
                            col as int + 1,
                        ));
                    }
                }
                col += 1;
            }
            proof {
                assert(ls@ =~= plate_live_upto(dim as nat, pv, row as int + 1, 0));
            }
            row += 1;
        }
        proof {
            assert(ls@ =~= plate_live(dim as nat, pv));
        }
        Life::new(ls, rule)
    }

    /// Point lookup: alive exactly when the coordinate is in the live-set.
    pub fn get(&self, point: &Point) -> (s: State)
        ensures
            s is Alive <==> self@.contains(point@),
    {
        if self.alive.contains(point) {
            State::Alive
        } else {
            State::Dead
        }
    }

    /// The number of currently live cells.
    pub fn active_cells(&self) -> (n: usize)
        requires
            self.wf(),
        ensures
            n == self@.len(),
    {
        self.alive.len()
    }

    /// The dimensionality of the lattice, at run time.
    pub fn dimension(&self) -> (d: usize)
        ensures
            d == self.dim(),
    {
        self.alive.dim
    }

    /// Whether every live cell leaves a +/-2 margin on every axis, so that
    /// one generation step cannot overflow a coordinate.
    #[verifier::loop_isolation(false)]
    pub fn all_cells_in_interior(&self) -> (b: bool)
        requires
            self.wf(),
        ensures
            b == all_in_interior(self@),
    {
        let mut i: usize = 0;
        while i < self.alive.cells.len()
            invariant
                i <= self.alive.cells@.len(),
                forall|k: int| 0 <= k < i ==> in_interior((#[trigger] self.alive.cells@[k])@),
            decreases self.alive.cells@.len() - i,
        {
            let cell = &self.alive.cells[i];
            let mut j: usize = 0;
            while j < cell.x.len()
                invariant
                    j <= cell.x@.len(),
                    forall|a: int|
                        0 <= a < j ==> i32::MIN + 1 < #[trigger] cell.x@[a] < i32::MAX - 1,
                decreases cell.x@.len() - j,
            {
                let v = cell.x[j];
                if v <= i32::MIN + 1 || v >= i32::MAX - 1 {
                    proof {
                        lemma_cell_in_view(&self.alive, i as int);
                        assert(!in_interior(self.alive.cells@[i as int]@));
                    }
                    return false;
                }
                j += 1;
            }
            proof {
                assert(in_interior(self.alive.cells@[i as int]@));
            }
            i += 1;
        }
        proof {
            assert forall|p: Seq<i32>| #[trigger] self@.contains(p) implies in_interior(p) by {
                let vs = self.alive.cells@.map_values(|pt: Point| pt@);
                assert(vs.contains(p));
                let k = choose|k: int| 0 <= k < vs.len() && vs[k] == p;
                assert(in_interior(self.alive.cells@[k]@));
            }
        }
        true
    }

    /// The exact set of coordinates that the next generation must evaluate:
    /// the union, over every live cell, of its neighbor-with-self set.
    #[verifier::loop_isolation(false)]
    pub fn smart_bound(&self) -> (r: LiveSet)
        requires
            self.wf(),
            all_in_bounds(self@),
            pow3(self.dim()) <= usize::MAX,
        ensures
            r.wf(),
            r.dim() == self.dim(),
            r@ == frontier_of(self@),
    {
        let mut out = LiveSet::empty(self.alive.dim);
        let mut i: usize = 0;
        while i < self.alive.cells.len()
            invariant
                i <= self.alive.cells@.len(),
                out.wf(),
                out.dim() == self.dim(),
                forall|q: Seq<i32>| #[trigger] out@.contains(q) ==> frontier_of(self@).contains(q),
                forall|k: int, q: Seq<i32>|
                    0 <= k < i && #[trigger] is_adjacent(self.alive.cells@[k]@, q)
                        ==> out@.contains(q),
            decreases self.alive.cells@.len() - i,
        {
            proof {
                lemma_cell_in_view(&self.alive, i as int);
                self.alive.lemma_members_wf();
            }
            let nbrs = self.alive.cells[i].neighbors_with_self();
            let mut j: usize = 0;
            while j < nbrs.len()
                invariant
                    j <= nbrs@.len(),
                    out.wf(),
                    out.dim() == self.dim(),
                    forall|q: Seq<i32>|
                        #[trigger] out@.contains(q) ==> frontier_of(self@).contains(q),
                    forall|k: int, q: Seq<i32>|
                        0 <= k < i && #[trigger] is_adjacent(self.alive.cells@[k]@, q)
                            ==> out@.contains(q),
                    forall|kk: int| 0 <= kk < j ==> out@.contains((#[trigger] nbrs@[kk])@),
                decreases nbrs@.len() - j,
            {
                proof {
                    assert(frontier_of(self@).contains(nbrs@[j as int]@)) by {
                        assert(self@.contains(self.alive.cells@[i as int]@));
                        assert(is_adjacent(self.alive.cells@[i as int]@, nbrs@[j as int]@));
                    }
                }
                let p = nbrs[j].clone();
                proof {
                    assert(p@ == nbrs@[j as int]@);
                    assert(is_adjacent(self.alive.cells@[i as int]@, nbrs@[j as int]@));
                    assert(self.alive.cells@[i as int]@.len() == self.dim());
                    assert(p@.len() == out.dim());
                }
                out.insert(p);
                j += 1;
            }
            proof {
                assert forall|q: Seq<i32>|
                    #[trigger] is_adjacent(self.alive.cells@[i as int]@, q)
                        implies out@.contains(q) by {
                    let kk = choose|kk: int|
                        0 <= kk < nbrs@.len() && (#[trigger] nbrs@[kk])@ == q;
                    assert(out@.contains(nbrs@[kk]@));
                }
            }
            i += 1;
        }
        proof {
            assert forall|q: Seq<i32>| frontier_of(self@).contains(q) implies out@.contains(
                q,
            ) by {
                let p = choose|p: Seq<i32>| #[trigger] self@.contains(p) && is_adjacent(p, q);
                let vs = self.alive.cells@.map_values(|pt: Point| pt@);
                assert(vs.contains(p));
                let k = choose|k: int| 0 <= k < vs.len() && vs[k] == p;
                assert(is_adjacent(self.alive.cells@[k]@, q));
            }
            assert(out@ =~= frontier_of(self@));
        }
        out
    }

    /// Count the live proper neighbors of `q` in the current live-set.
    #[verifier::loop_isolation(false)]
    fn live_neighbor_tally(&self, q: &Point) -> (count: usize)
        requires
            self.wf(),
            in_bounds(q@),
            q@.len() == self.dim(),
            pow3(self.dim()) <= usize::MAX,
        ensures
            count == live_neighbor_count(self@, q@),
    {
        proof {
            self.alive.lemma_finite();
        }
        let ghost lsv = self@;
        let nbrs = q.neighbors();
        let mut count: usize = 0;
        let ghost mut seen: Set<Seq<i32>> = Set::empty();
        let mut j: usize = 0;
        while j < nbrs.len()
            invariant
                j <= nbrs@.len(),
                count <= j,
                seen.finite(),
                count == seen.len(),
                seen =~= prefix_live(lsv, nbrs@, j as int),
            decreases nbrs@.len() - j,
        {
            let alive_n = self.alive.contains(&nbrs[j]);
            if alive_n {
                proof {
                    let v = nbrs@[j as int]@;
                    assert(!seen.contains(v)) by {
                        if seen.contains(v) {
                            let kk = choose|kk: int|
                                0 <= kk < j && (#[trigger] nbrs@[kk])@ == v;
                            assert(nbrs@[kk]@ != nbrs@[j as int]@);
                        }
                    }
                    seen = seen.insert(v);
                }
                count += 1;
            }
            proof {
                assert(seen =~= prefix_live(lsv, nbrs@, j as int + 1));
            }
            j += 1;
        }
        proof {
            assert(prefix_live(lsv, nbrs@, nbrs@.len() as int) =~= live_neighbors_of(lsv, q@))
                by {
                assert forall|p: Seq<i32>|
                    live_neighbors_of(lsv, q@).contains(p) implies prefix_live(
                    lsv,
                    nbrs@,
                    nbrs@.len() as int,
                ).contains(p) by {
                    assert(is_neighbor(q@, p));
                    let kk = choose|kk: int|
                        0 <= kk < nbrs@.len() && (#[trigger] nbrs@[kk])@ == p;
                }
            }
        }
        count
    }

    /// Compute the next generation: evaluate every frontier coordinate
    /// against the rule and collect those that come out alive. The current
    /// instance is left untouched and remains valid.
    #[verifier::loop_isolation(false)]
    pub fn next(&self) -> (r: Life<R>)
        requires
            self.wf(),
            all_in_interior(self@),
            pow3(self.dim()) <= usize::MAX,
        ensures
            r.wf(),
            r.dim() == self.dim(),
            r.rule() == self.rule(),
            r@ == step_spec(self@, self.rule()),
    {
        proof {
            assert forall|p: Seq<i32>| #[trigger] self@.contains(p) implies in_bounds(p) by {
                assert(in_interior(p));
            }
        }
        let ghost pred = |q: Seq<i32>|
            self.rule.rule_spec(self@.contains(q), live_neighbor_count(self@, q));
        let frontier = self.smart_bound();
        let mut out = LiveSet::empty(self.alive.dim);
        let mut i: usize = 0;
        while i < frontier.cells.len()
            invariant
                i <= frontier.cells@.len(),
                out.wf(),
                out.dim() == self.dim(),
                forall|q: Seq<i32>|
                    #[trigger] out@.contains(q) ==> frontier@.contains(q) && pred(q),
                forall|k: int|
                    0 <= k < i
                        ==> (out@.contains((#[trigger] frontier.cells@[k])@) <==> pred(
                        frontier.cells@[k]@,
                    )),
            decreases frontier.cells@.len() - i,
        {
            let q = &frontier.cells[i];
            proof {
                lemma_cell_in_view(&frontier, i as int);
                frontier.lemma_members_wf();
                assert(frontier_of(self@).contains(q@));
                let p = choose|p: Seq<i32>| #[trigger] self@.contains(p) && is_adjacent(p, q@);
                lemma_adjacent_in_bounds(p, q@);
            }
            let state = self.get(q);
            let count = self.live_neighbor_tally(q);
            let verdict = self.rule.eval(state, count);
            match verdict {
                State::Alive => {
                    let p = q.clone();
                    proof {
                        assert(p@ == frontier.cells@[i as int]@);
                        assert(frontier@.contains(p@));
                        assert(p@.len() == frontier.dim());
                        assert(pred(p@));
                    }
                    out.insert(p);
                },
                State::Dead => {},
            }
            i += 1;
        }
        proof {
            assert forall|q: Seq<i32>|
                step_spec(self@, self.rule).contains(q) implies out@.contains(q) by {
                assert(frontier@.contains(q));
                let vs = frontier.cells@.map_values(|pt: Point| pt@);
                assert(vs.contains(q));
                let k = choose|k: int| 0 <= k < vs.len() && vs[k] == q;
                assert(out@.contains(frontier.cells@[k]@) <==> pred(frontier.cells@[k]@));
            }
            assert forall|q: Seq<i32>|
                out@.contains(q) implies step_spec(self@, self.rule).contains(q) by {
                assert(frontier@.contains(q) && pred(q));
            }
            assert(out@ =~= step_spec(self@, self.rule));
        }
        Life { alive: out, rule: self.rule }
    }
}

impl Life<StandardRule> {
    /// Seed a simulation from a plate of text, stepped by the standard rule.
    pub fn from_plate_default_rules(dim: usize, plate: &Vec<&str>) -> (r: Life<StandardRule>)
        requires
            dim >= 2,
            plate@.len() <= i32::MAX,
            forall|rr: int| 0 <= rr < plate@.len() ==> (#[trigger] plate@[rr])@.len() <= i32::MAX,
        ensures
            r.wf(),
            r.dim() == dim,
            r.rule() == StandardRule,
            r@ == plate_live(dim as nat, rows_view(plate@)),
    {
        Life::from_plate(dim, plate, StandardRule)
    }
}

} // verus!
