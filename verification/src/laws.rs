//! General properties of the engine, stated and proved once over the same
//! mathematical model that the public contracts use.

use vstd::prelude::*;
use crate::life::Rule;
use crate::life::StandardRule;
use crate::life::frontier_of;
use crate::life::live_neighbor_count;
use crate::life::live_neighbors_of;
use crate::life::step_spec;
use crate::point::is_adjacent;
use crate::point::is_neighbor;

verus! {

broadcast use vstd::set::group_set_axioms;

/// Extinction is absorbing: stepping an empty live-set yields an empty
/// live-set, under any rule, so stepping it again stays empty.
pub proof fn lemma_extinction_absorbing<R: Rule>(rule: R)
    ensures
        step_spec(Set::<Seq<i32>>::empty(), rule) == Set::<Seq<i32>>::empty(),
{
    assert(step_spec(Set::<Seq<i32>>::empty(), rule) =~= Set::<Seq<i32>>::empty());
}

/// The stepper is deterministic: the next generation is a function of the
/// live-set membership and the rule alone, so two advances from live-sets
/// with identical membership agree, whatever order the cells were gathered
/// or evaluated in.
pub proof fn lemma_step_deterministic<R: Rule>(a: Set<Seq<i32>>, b: Set<Seq<i32>>, rule: R)
    requires
        a == b,
    ensures
        step_spec(a, rule) == step_spec(b, rule),
{
}

/// Under the standard rule, a single isolated live cell dies and nothing is
/// born: the cell itself has zero live neighbors, and no other frontier cell
/// sees more than one.
pub proof fn lemma_isolated_cell_dies(p: Seq<i32>)
    ensures
        step_spec(Set::<Seq<i32>>::empty().insert(p), StandardRule) == Set::<Seq<i32>>::empty(),
{
    let ls = Set::<Seq<i32>>::empty().insert(p);
    assert forall|q: Seq<i32>| !step_spec(ls, StandardRule).contains(q) by {
        if step_spec(ls, StandardRule).contains(q) {
            let lnb = live_neighbors_of(ls, q);
            let cnt = live_neighbor_count(ls, q);
            if q == p {
                assert(!is_neighbor(q, p));
                assert(lnb =~= Set::<Seq<i32>>::empty());
                assert(cnt == 0);
            } else {
                assert(!ls.contains(q));
                if lnb.contains(p) {
                    assert(lnb =~= Set::<Seq<i32>>::empty().insert(p));
                    assert(cnt == 1);
                } else {
                    assert(lnb =~= Set::<Seq<i32>>::empty());
                    assert(cnt == 0);
                }
            }
            assert(false);
        }
    }
    assert(step_spec(ls, StandardRule) =~= Set::<Seq<i32>>::empty());
}

/// The four cells of a 2x2 block whose lowest corner, on both axes, is
/// `(a, b)`.
pub open spec fn block_of(a: i32, b: i32) -> Set<Seq<i32>> {
    Set::<Seq<i32>>::empty().insert(seq![a, b]).insert(seq![a, ((b + 1) as i32)]).insert(
        seq![((a + 1) as i32), b],
    ).insert(seq![((a + 1) as i32), ((b + 1) as i32)])
}

/// Under the standard rule, a 2x2 block of live cells is a still life:
/// stepping it returns exactly the same four coordinates. Each live cell has
/// three live neighbors and survives; no dead cell sees exactly three.
pub proof fn lemma_block_is_still_life(a: i32, b: i32)
    requires
        a < i32::MAX,
        b < i32::MAX,
    ensures
        step_spec(block_of(a, b), StandardRule) == block_of(a, b),
{
    let ls = block_of(a, b);
    let a1 = (a + 1) as i32;
    let b1 = (b + 1) as i32;
    let c00: Seq<i32> = seq![a, b];
    let c01: Seq<i32> = seq![a, b1];
    let c10: Seq<i32> = seq![a1, b];
    let c11: Seq<i32> = seq![a1, b1];
    assert(a1 as int == a + 1 && b1 as int == b + 1);
    assert(c00[0] == a && c00[1] == b && c01[0] == a && c01[1] == b1);
    assert(c10[0] == a1 && c10[1] == b && c11[0] == a1 && c11[1] == b1);
    assert(c00 != c01 && c00 != c10 && c00 != c11 && c01 != c10 && c01 != c11 && c10 != c11);
    assert(ls.finite());
    assert(ls.len() == 4);
    assert(forall|p: Seq<i32>|
        ls.contains(p) <==> p == c00 || p == c01 || p == c10 || p == c11);
    assert forall|p: Seq<i32>, q: Seq<i32>|
        ls.contains(p) && ls.contains(q) implies is_adjacent(q, p) by {
        assert(p.len() == 2 && q.len() == 2);
        assert(-1 <= p[0] - q[0] <= 1 && -1 <= p[1] - q[1] <= 1);
        assert forall|i: int| 0 <= i < q.len() implies -1 <= #[trigger] p[i] - q[i] <= 1 by {
            assert(i == 0 || i == 1);
        }
    }
    assert forall|q: Seq<i32>| ls.contains(q) implies step_spec(ls, StandardRule).contains(
        q,
    ) by {
        assert(is_adjacent(q, q));
        assert(frontier_of(ls).contains(q));
        let lnb = live_neighbors_of(ls, q);
        assert(lnb =~= ls.remove(q));
        assert(lnb.len() == 3);
        assert(StandardRule.rule_spec(ls.contains(q), live_neighbor_count(ls, q)));
    }
    assert forall|q: Seq<i32>| step_spec(ls, StandardRule).contains(q) implies ls.contains(
        q,
    ) by {
        if !ls.contains(q) {
            let lnb = live_neighbors_of(ls, q);
            assert(StandardRule.rule_spec(false, live_neighbor_count(ls, q)));
            assert(lnb.len() == 3);
            assert(lnb.subset_of(ls));
            let col_low = Set::<Seq<i32>>::empty().insert(c00).insert(c01);
            let col_high = Set::<Seq<i32>>::empty().insert(c10).insert(c11);
            let row_low = Set::<Seq<i32>>::empty().insert(c00).insert(c10);
            let row_high = Set::<Seq<i32>>::empty().insert(c01).insert(c11);
            if !lnb.contains(c00) && !lnb.contains(c01) {
                assert(lnb.subset_of(col_high));
                vstd::set_lib::lemma_len_subset(lnb, col_high);
                assert(col_high.len() <= 2);
                assert(false);
            }
            if !lnb.contains(c10) && !lnb.contains(c11) {
                assert(lnb.subset_of(col_low));
                vstd::set_lib::lemma_len_subset(lnb, col_low);
                assert(col_low.len() <= 2);
                assert(false);
            }
            if !lnb.contains(c00) && !lnb.contains(c10) {
                assert(lnb.subset_of(row_high));
                vstd::set_lib::lemma_len_subset(lnb, row_high);
                assert(row_high.len() <= 2);
                assert(false);
            }
            if !lnb.contains(c01) && !lnb.contains(c11) {
                assert(lnb.subset_of(row_low));
                vstd::set_lib::lemma_len_subset(lnb, row_low);
                assert(row_low.len() <= 2);
                assert(false);
            }
            assert(q.len() == 2) by {
                assert(lnb.contains(c00) || lnb.contains(c01));
                assert(is_neighbor(q, c00) || is_neighbor(q, c01));
            }
            let qa = q[0];
            let qb = q[1];
            assert(a <= qa as int <= a + 1) by {
                assert(lnb.contains(c00) || lnb.contains(c01));
                assert(-1 <= qa - a <= 1);
                assert(lnb.contains(c10) || lnb.contains(c11));
                assert(-1 <= qa - a1 <= 1);
            }
            assert(b <= qb as int <= b + 1) by {
                assert(lnb.contains(c00) || lnb.contains(c10));
                assert(-1 <= qb - b <= 1);
                assert(lnb.contains(c01) || lnb.contains(c11));
                assert(-1 <= qb - b1 <= 1);
            }
            if qa == a && qb == b {
                assert(q =~= c00);
            } else if qa == a {
                assert(q =~= c01);
            } else if qb == b {
                assert(q =~= c10);
            } else {
                assert(q =~= c11);
            }
            assert(false);
        }
    }
    assert(step_spec(ls, StandardRule) =~= ls);
}

/// No cell changes state outside the frontier: every coordinate whose state
/// differs between a generation and the next lies in the earlier
/// generation's frontier.
pub proof fn lemma_changes_within_frontier<R: Rule>(ls: Set<Seq<i32>>, rule: R, q: Seq<i32>)
    requires
        ls.contains(q) != step_spec(ls, rule).contains(q),
    ensures
        frontier_of(ls).contains(q),
{
    if !step_spec(ls, rule).contains(q) {
        assert(is_adjacent(q, q));
        assert(ls.contains(q) && is_adjacent(q, q));
    }
}

} // verus!
