//! The publish-order planner: a topological ordering of the packages
//! selected for release, dependencies strictly before dependents, ties
//! broken by ascending package name for deterministic output. A cycle
//! among selected packages is fatal: no partial ordering is returned.

use vstd::prelude::*;
use crate::text::bytes_lt;

verus! {

/// The planner's failure: the named packages (as indices into the input)
/// each depend, directly or transitively, on another of them.
#[derive(Debug)]
pub enum PlanError {
    Cycle { members: Vec<usize> },
}

/// No edge leads from an earlier entry of `order` to a later one: every
/// package is preceded by all its dependencies.
pub open spec fn deps_first(order: Seq<usize>, edges: Seq<(usize, usize)>) -> bool {
    forall|x: int, y: int|
        #![trigger order[x], order[y]]
        0 <= x < y < order.len() ==> forall|j: int|
            0 <= j < edges.len() ==> !((#[trigger] edges[j]).0 == order[x] && edges[j].1
                == order[y])
}

/// Orders the selected packages so that dependencies precede dependents.
/// `names` gives each package's name (ties go to the lexically smaller
/// name), `selected` which packages release this run, and an edge
/// `(a, b)` says `a` depends on `b`.
///
/// On success the order holds each selected package exactly once and no
/// package comes before one of its dependencies. On failure the error
/// names a nonempty set of selected packages each of which depends on
/// another of the set: a dependency cycle, and no ordering exists.
pub fn plan_publish_order(
    names: &Vec<Vec<u8>>,
    selected: &Vec<bool>,
    edges: &Vec<(usize, usize)>,
) -> (r: Result<Vec<usize>, PlanError>)
    requires
        names@.len() == selected@.len(),
        forall|j: int|
            0 <= j < edges@.len() ==> (#[trigger] edges@[j]).0 < selected@.len() && edges@[j].1
                < selected@.len(),
    ensures
        match r {
            Ok(order) => {
                &&& forall|x: int, y: int|
                    0 <= x < y < order@.len() ==> order@[x] != order@[y]
                &&& forall|x: int| 0 <= x < order@.len() ==> (order@[x] as int) < selected@.len()
                    && selected@[order@[x] as int]
                &&& forall|p: int|
                    0 <= p < selected@.len() && selected@[p] ==> order@.contains(p as usize)
                &&& deps_first(order@, edges@)
            },
            Err(PlanError::Cycle { members }) => {
                &&& members@.len() > 0
                &&& forall|x: int|
                    #![trigger members@[x]]
                    0 <= x < members@.len() ==> (members@[x] as int) < selected@.len()
                        && selected@[members@[x] as int] && exists|j: int|
                        0 <= j < edges@.len() && (#[trigger] edges@[j]).0 == members@[x]
                            && members@.contains(edges@[j].1)
            },
        },
{
    let n = selected.len();
    let mut placed: Vec<bool> = Vec::new();
    let mut p: usize = 0;
    while p < n
        invariant
            0 <= p <= n,
            placed@.len() == p,
            forall|q: int| 0 <= q < p ==> !placed@[q],
        decreases n - p,
    {
        placed.push(false);
        p = p + 1;
    }
    proof {
        lemma_count_placed_zero(placed@);
    }
    let mut order: Vec<usize> = Vec::new();
    let mut go = true;
    while go
        invariant
            n == selected@.len(),
            names@.len() == n,
            placed@.len() == n,
            forall|j: int|
                0 <= j < edges@.len() ==> (#[trigger] edges@[j]).0 < n && edges@[j].1 < n,
            // order holds exactly the placed, selected packages, once each
            forall|x: int| 0 <= x < order@.len() ==> (order@[x] as int) < n
                && selected@[order@[x] as int] && placed@[order@[x] as int],
            forall|q: int| 0 <= q < n && placed@[q] ==> selected@[q] && order@.contains(q as usize),
            forall|x: int, y: int| 0 <= x < y < order@.len() ==> order@[x] != order@[y],
            // nothing placed depends on anything still unplaced
            forall|x: int, j: int|
                #![trigger order@[x], edges@[j]]
                0 <= x < order@.len() && 0 <= j < edges@.len() && edges@[j].0
                    == order@[x] && selected@[edges@[j].1 as int] ==> placed@[edges@[j].1 as int],
            deps_first(order@, edges@),
            order@.len() == count_placed(placed@),
            !go ==> forall|m: int|
                0 <= m < n && selected@[m] && !placed@[m] ==> !eligible(
                    m,
                    placed@,
                    selected@,
                    edges@,
                ),
        decreases 2 * (n - count_placed(placed@)) + if go {
            1int
        } else {
            0int
        },
    {
        proof {
            lemma_count_placed_bound(placed@);
        }
        // find the eligible package with the smallest name
        let mut best: usize = 0;
        let mut found = false;
        let mut q: usize = 0;
        while q < n
            invariant
                n == selected@.len(),
                names@.len() == n,
                placed@.len() == n,
                forall|j: int|
                    0 <= j < edges@.len() ==> (#[trigger] edges@[j]).0 < n && edges@[j].1 < n,
                found ==> (best as int) < n && selected@[best as int] && !placed@[best as int]
                    && eligible(best as int, placed@, selected@, edges@),
                !found ==> forall|m: int|
                    0 <= m < q && selected@[m] && !placed@[m] ==> !eligible(
                        m,
                        placed@,
                        selected@,
                        edges@,
                    ),
            decreases n - q,
        {
            if selected[q] && !placed[q] {
                // is q free of edges into the unplaced selected set?
                let mut blocked = false;
                let mut j: usize = 0;
                while j < edges.len()
                    invariant
                        n == selected@.len(),
                        placed@.len() == n,
                        q < n,
                        forall|jj: int|
                            0 <= jj < edges@.len() ==> (#[trigger] edges@[jj]).0 < n
                                && edges@[jj].1 < n,
                        blocked ==> !eligible(q as int, placed@, selected@, edges@),
                        !blocked ==> forall|jj: int|
                            0 <= jj < j && (#[trigger] edges@[jj]).0 == q ==> !(
                            selected@[edges@[jj].1 as int] && !placed@[edges@[jj].1 as int]),
                    decreases edges@.len() - j,
                {
                    let (a, b) = edges[j];
                    if a == q && selected[b] && !placed[b] {
                        proof {
                            assert(!eligible(q as int, placed@, selected@, edges@)) by {
                                assert((#[trigger] edges@[j as int]).0 == q
                                    && selected@[edges@[j as int].1 as int]
                                    && !placed@[edges@[j as int].1 as int]);
                            }
                        }
                        blocked = true;
                    }
                    j = j + 1;
                }
                if !blocked {
                    if !found || bytes_lt(&names[q], &names[best]) {
                        best = q;
                        found = true;
                    }
                }
            }
            q = q + 1;
        }
        if found {
            let ghost order0 = order@;
            let ghost placed0 = placed@;
            order.push(best);
            placed.set(best, true);
            proof {
                assert(placed@ =~= placed0.update(best as int, true));
                lemma_count_placed_update(placed0, best as int);
                lemma_count_placed_bound(placed@);
                assert(order@ =~= order0.push(best));
                assert forall|q2: int|
                    0 <= q2 < n && placed@[q2] implies selected@[q2] && order@.contains(
                    q2 as usize,
                ) by {
                    if q2 == best as int {
                        assert(order@[order@.len() - 1] == best);
                    } else {
                        assert(placed0[q2]);
                        let x = choose|x: int| 0 <= x < order0.len() && order0[x] == q2 as usize;
                        assert(order@[x] == q2 as usize);
                    }
                }
                assert(deps_first(order@, edges@)) by {
                    assert forall|x: int, y: int, j: int|
                        #![trigger order@[x], order@[y], edges@[j]]
                        0 <= x < y < order@.len() && 0 <= j < edges@.len() implies !(
                    edges@[j].0 == order@[x] && edges@[j].1 == order@[y]) by {
                        if y < order@.len() - 1 {
                            assert(order0[x] == order@[x] && order0[y] == order@[y]);
                        } else {
                            // the new entry was unplaced when order[x] was placed
                            if edges@[j].0 == order@[x] && edges@[j].1 == order@[y] {
                                assert(order@[y] == best);
                                assert(selected@[best as int] && !placed0[best as int]);
                            }
                        }
                    }
                }
            }
        } else {
            proof {
                lemma_count_placed_bound(placed@);
            }
        }
        go = found;
    }
    // everything selected placed: success; otherwise the rest is cyclic
    let mut all = true;
    let mut members: Vec<usize> = Vec::new();
    let mut q: usize = 0;
    while q < n
        invariant
            0 <= q <= n,
            n == selected@.len(),
            placed@.len() == n,
            all ==> forall|m: int| 0 <= m < q && selected@[m] ==> placed@[m],
            forall|x: int| 0 <= x < members@.len() ==> (members@[x] as int) < n
                && selected@[members@[x] as int] && !placed@[members@[x] as int],
            forall|m: int|
                0 <= m < q && selected@[m] && !placed@[m] ==> members@.contains(m as usize),
            !all ==> members@.len() > 0,
        decreases n - q,
    {
        if selected[q] && !placed[q] {
            let ghost members0 = members@;
            members.push(q);
            all = false;
            proof {
                assert(members@ =~= members0.push(q));
                assert(members@[members@.len() - 1] == q);
                assert forall|m: int|
                    0 <= m < q + 1 && selected@[m] && !placed@[m] implies members@.contains(
                    m as usize,
                ) by {
                    if m < q {
                        let x = choose|x: int|
                            0 <= x < members0.len() && members0[x] == m as usize;
                        assert(members@[x] == m as usize);
                    }
                }
            }
        }
        q = q + 1;
    }
    if all {
        proof {
            assert forall|p2: int|
                0 <= p2 < selected@.len() && selected@[p2] implies order@.contains(
                p2 as usize,
            ) by {
                assert(placed@[p2]);
            }
            assert(forall|x: int, y: int| 0 <= x < y < order@.len() ==> order@[x] != order@[y]);
            assert(forall|x: int|
                0 <= x < order@.len() ==> (order@[x] as int) < selected@.len()
                    && selected@[order@[x] as int]);
            assert(deps_first(order@, edges@));
        }
        Ok(order)
    } else {
        proof {
            assert forall|x: int| #![trigger members@[x]] 0 <= x < members@.len() implies (
                members@[x] as int) < selected@.len() && selected@[members@[x] as int] && exists|
                j: int,
            |
                0 <= j < edges@.len() && (#[trigger] edges@[j]).0 == members@[x]
                    && members@.contains(edges@[j].1) by {
                let m = members@[x];
                assert(selected@[m as int] && !placed@[m as int]);
                assert(!eligible(m as int, placed@, selected@, edges@));
                assert(exists|j: int|
                    0 <= j < edges@.len() && (#[trigger] edges@[j]).0 == m as int
                        && selected@[edges@[j].1 as int] && !placed@[edges@[j].1 as int]) by {
                    if forall|j: int|
                        0 <= j < edges@.len() && (#[trigger] edges@[j]).0 == m as int ==> !(
                        selected@[edges@[j].1 as int] && !placed@[edges@[j].1 as int]) {
                        assert(eligible(m as int, placed@, selected@, edges@));
                    }
                }
                let j = choose|j: int|
                    0 <= j < edges@.len() && (#[trigger] edges@[j]).0 == m as int
                        && selected@[edges@[j].1 as int] && !placed@[edges@[j].1 as int];
                assert(members@.contains(edges@[j].1));
                assert(0 <= j < edges@.len() && (#[trigger] edges@[j]).0 == members@[x]
                    && members@.contains(edges@[j].1));
            }
        }
        Err(PlanError::Cycle { members })
    }
}

/// `p` can be published now: no edge from `p` into the unplaced selected
/// set.
pub open spec fn eligible(
    p: int,
    placed: Seq<bool>,
    selected: Seq<bool>,
    edges: Seq<(usize, usize)>,
) -> bool {
    forall|j: int|
        0 <= j < edges.len() && (#[trigger] edges[j]).0 == p ==> !(selected[edges[j].1 as int]
            && !placed[edges[j].1 as int])
}

spec fn count_placed(s: Seq<bool>) -> int
    decreases s.len(),
{
    if s.len() == 0 {
        0
    } else {
        count_placed(s.drop_last()) + if s.last() {
            1int
        } else {
            0int
        }
    }
}

proof fn lemma_count_placed_zero(s: Seq<bool>)
    requires
        forall|q: int| 0 <= q < s.len() ==> !s[q],
    ensures
        count_placed(s) == 0,
    decreases s.len(),
{
    if s.len() > 0 {
        assert(forall|q: int| 0 <= q < s.drop_last().len() ==> !s.drop_last()[q]);
        lemma_count_placed_zero(s.drop_last());
    }
}

proof fn lemma_count_placed_bound(s: Seq<bool>)
    ensures
        0 <= count_placed(s) <= s.len(),
    decreases s.len(),
{
    if s.len() > 0 {
        lemma_count_placed_bound(s.drop_last());
    }
}

proof fn lemma_count_placed_update(s: Seq<bool>, a: int)
    requires
        0 <= a < s.len(),
        !s[a],
    ensures
        count_placed(s.update(a, true)) == count_placed(s) + 1,
    decreases s.len(),
{
    let t = s.update(a, true);
    if a == s.len() - 1 {
        assert(t.drop_last() =~= s.drop_last());
    } else {
        assert(t.drop_last() =~= s.drop_last().update(a, true));
        lemma_count_placed_update(s.drop_last(), a);
    }
}

/// Two packages that each depend on the other can never both stand in an
/// ordering that puts dependencies first: together with the planner's
/// contract, a mutual dependency among selected packages forces the
/// cycle error, and no ordering is returned.
pub proof fn lemma_cycle_unorderable(
    order: Seq<usize>,
    edges: Seq<(usize, usize)>,
    p: usize,
    q: usize,
    jp: int,
    jq: int,
)
    requires
        0 <= jp < edges.len() && 0 <= jq < edges.len(),
        edges[jp].0 == p && edges[jp].1 == q,
        edges[jq].0 == q && edges[jq].1 == p,
        p != q,
        order.contains(p),
        order.contains(q),
    ensures
        !deps_first(order, edges),
{
    let x = choose|x: int| 0 <= x < order.len() && order[x] == p;
    let y = choose|y: int| 0 <= y < order.len() && order[y] == q;
    if deps_first(order, edges) {
        if x < y {
            assert(!((#[trigger] edges[jp]).0 == order[x] && edges[jp].1 == order[y]));
        } else {
            assert(!((#[trigger] edges[jq]).0 == order[y] && edges[jq].1 == order[x]));
        }
        assert(false);
    }
}

} // verus!
