//! The version-bump resolver: per package, the minimal version increment
//! demanded by its own commits, then propagation across the dependency
//! graph until a fixpoint — a package whose dependency is republished
//! needs at least a patch release itself.

use vstd::prelude::*;
use crate::BumpLevel;

verus! {

/// The increment a package's own history demands, before propagation.
/// Breaking changes on a pre-1.0 package map to `Minor`, following the
/// semantic-versioning convention for unstable versions.
pub open spec fn spec_base_level(
    major: u64,
    breaking: bool,
    has_feat: bool,
    has_other: bool,
) -> BumpLevel {
    if breaking {
        if major >= 1 {
            BumpLevel::Major
        } else {
            BumpLevel::Minor
        }
    } else if has_feat {
        BumpLevel::Minor
    } else if has_other {
        BumpLevel::Patch
    } else {
        BumpLevel::NoBump
    }
}

/// Decides a package's own bump level. `breaking` covers both a breaking
/// commit and an externally supplied breaking-API signal; `has_feat` is a
/// feature commit; `has_other` any other meaningful commit.
pub fn base_level(major: u64, breaking: bool, has_feat: bool, has_other: bool) -> (r: BumpLevel)
    ensures
        r == spec_base_level(major, breaking, has_feat, has_other),
{
    if breaking {
        if major >= 1 {
            BumpLevel::Major
        } else {
            BumpLevel::Minor
        }
    } else if has_feat {
        BumpLevel::Minor
    } else if has_other {
        BumpLevel::Patch
    } else {
        BumpLevel::NoBump
    }
}

/// `p` is selected for release within `fuel` dependency hops: its own
/// level demands a release, or some dependency of it does.
pub open spec fn bumped(edges: Seq<(usize, usize)>, own: Seq<BumpLevel>, p: int, fuel: nat) -> bool
    decreases fuel,
{
    ||| own[p] != BumpLevel::NoBump
    ||| (fuel > 0 && exists|j: int|
        0 <= j < edges.len() && (#[trigger] edges[j]).0 == p && bumped(
            edges,
            own,
            edges[j].1 as int,
            (fuel - 1) as nat,
        ))
}

/// `p` is selected within any number of hops.
pub open spec fn bumped_ex(edges: Seq<(usize, usize)>, own: Seq<BumpLevel>, p: int) -> bool {
    exists|f: nat| bumped(edges, own, p, f)
}

/// Some direct dependency of `p` is selected.
pub open spec fn dep_bumped(edges: Seq<(usize, usize)>, own: Seq<BumpLevel>, p: int) -> bool {
    exists|j: int|
        0 <= j < edges.len() && (#[trigger] edges[j]).0 == p && bumped_ex(
            edges,
            own,
            edges[j].1 as int,
        )
}

/// The resolved level of `p`: its own demand, or `Patch` when only a
/// dependency forces it along, or nothing.
pub open spec fn resolved(edges: Seq<(usize, usize)>, own: Seq<BumpLevel>, p: int) -> BumpLevel {
    if own[p] != BumpLevel::NoBump {
        own[p]
    } else if dep_bumped(edges, own, p) {
        BumpLevel::Patch
    } else {
        BumpLevel::NoBump
    }
}

spec fn count_true(s: Seq<bool>) -> int
    decreases s.len(),
{
    if s.len() == 0 {
        0
    } else {
        count_true(s.drop_last()) + if s.last() {
            1int
        } else {
            0int
        }
    }
}

proof fn lemma_count_bound(s: Seq<bool>)
    ensures
        0 <= count_true(s) <= s.len(),
    decreases s.len(),
{
    if s.len() > 0 {
        lemma_count_bound(s.drop_last());
    }
}

proof fn lemma_count_update(s: Seq<bool>, a: int)
    requires
        0 <= a < s.len(),
        !s[a],
    ensures
        count_true(s.update(a, true)) == count_true(s) + 1,
    decreases s.len(),
{
    let t = s.update(a, true);
    if a == s.len() - 1 {
        assert(t.drop_last() =~= s.drop_last());
    } else {
        assert(t.drop_last() =~= s.drop_last().update(a, true));
        lemma_count_update(s.drop_last(), a);
    }
}

/// A selection closed under the edge rule contains everything reachable.
proof fn lemma_closure_complete(
    edges: Seq<(usize, usize)>,
    own: Seq<BumpLevel>,
    sel: Seq<bool>,
    p: int,
    fuel: nat,
)
    requires
        sel.len() == own.len(),
        forall|q: int| 0 <= q < own.len() && own[q] != BumpLevel::NoBump ==> sel[q],
        forall|j: int|
            0 <= j < edges.len() ==> (#[trigger] edges[j]).0 < own.len() && edges[j].1 < own.len(),
        forall|j: int|
            0 <= j < edges.len() && sel[(#[trigger] edges[j]).1 as int] ==> sel[edges[j].0 as int],
        0 <= p < own.len(),
        bumped(edges, own, p, fuel),
    ensures
        sel[p],
    decreases fuel,
{
    if own[p] != BumpLevel::NoBump {
    } else {
        let j = choose|j: int|
            0 <= j < edges.len() && (#[trigger] edges[j]).0 == p && bumped(
                edges,
                own,
                edges[j].1 as int,
                (fuel - 1) as nat,
            );
        lemma_closure_complete(edges, own, sel, edges[j].1 as int, (fuel - 1) as nat);
    }
}

/// Propagates forced releases across the dependency graph to a fixpoint.
/// The result is exactly `resolved` at every package: levels above
/// `NoBump` are kept, and a package whose (transitive) dependency is
/// released gets at least `Patch`.
pub fn propagate(own: &Vec<BumpLevel>, edges: &Vec<(usize, usize)>) -> (res: Vec<BumpLevel>)
    requires
        forall|j: int|
            0 <= j < edges@.len() ==> (#[trigger] edges@[j]).0 < own@.len() && edges@[j].1
                < own@.len(),
    ensures
        res@.len() == own@.len(),
        forall|p: int| 0 <= p < own@.len() ==> res@[p] == resolved(edges@, own@, p),
{
    let n = own.len();
    let mut sel: Vec<bool> = Vec::new();
    let mut p: usize = 0;
    while p < n
        invariant
            0 <= p <= n,
            n == own@.len(),
            sel@.len() == p,
            forall|q: int| 0 <= q < p ==> sel@[q] == (own@[q] != BumpLevel::NoBump),
        decreases n - p,
    {
        sel.push(!matches!(own[p], BumpLevel::NoBump));
        p = p + 1;
    }
    proof {
        assert(forall|q: int|
            0 <= q < n && sel@[q] ==> bumped(edges@, own@, q, 0) && bumped_ex(edges@, own@, q));
    }
    let mut go = true;
    while go
        invariant
            n == own@.len(),
            sel@.len() == n,
            forall|j: int|
                0 <= j < edges@.len() ==> (#[trigger] edges@[j]).0 < n && edges@[j].1 < n,
            forall|q: int| 0 <= q < n && own@[q] != BumpLevel::NoBump ==> sel@[q],
            forall|q: int| 0 <= q < n && sel@[q] ==> bumped_ex(edges@, own@, q),
            !go ==> forall|j: int|
                0 <= j < edges@.len() && sel@[(#[trigger] edges@[j]).1 as int] ==> sel@[edges@[j].0 as int],
        decreases 2 * (n - count_true(sel@)) + if go {
            1int
        } else {
            0int
        },
    {
        proof {
            lemma_count_bound(sel@);
        }
        let ghost sel_entry = sel@;
        let mut changed = false;
        let mut j: usize = 0;
        while j < edges.len()
            invariant
                n == own@.len(),
                sel@.len() == n,
                forall|jj: int|
                    0 <= jj < edges@.len() ==> (#[trigger] edges@[jj]).0 < n && edges@[jj].1 < n,
                forall|q: int| 0 <= q < n && own@[q] != BumpLevel::NoBump ==> sel@[q],
                forall|q: int| 0 <= q < n && sel@[q] ==> bumped_ex(edges@, own@, q),
                !changed ==> sel@ == sel_entry,
                !changed ==> forall|jj: int|
                    0 <= jj < j && sel@[(#[trigger] edges@[jj]).1 as int] ==> sel@[edges@[jj].0 as int],
                changed ==> count_true(sel@) > count_true(sel_entry),
                count_true(sel@) >= count_true(sel_entry),
            decreases edges@.len() - j,
        {
            let (a, b) = edges[j];
            if sel[b] && !sel[a] {
                proof {
                    let f = choose|f: nat| bumped(edges@, own@, b as int, f);
                    assert(bumped(edges@, own@, a as int, f + 1)) by {
                        assert((#[trigger] edges@[j as int]).0 == a && bumped(
                            edges@,
                            own@,
                            edges@[j as int].1 as int,
                            f,
                        ));
                    }
                    lemma_count_update(sel@, a as int);
                }
                let ghost before = sel@;
                sel.set(a, true);
                proof {
                    assert(sel@ =~= before.update(a as int, true));
                    assert(bumped_ex(edges@, own@, a as int)) by {
                        let f = choose|f: nat| bumped(edges@, own@, b as int, f);
                        assert(bumped(edges@, own@, a as int, f + 1)) by {
                            assert((#[trigger] edges@[j as int]).0 == a && bumped(
                                edges@,
                                own@,
                                edges@[j as int].1 as int,
                                f,
                            ));
                        }
                    }
                }
                changed = true;
            }
            j = j + 1;
        }
        proof {
            lemma_count_bound(sel@);
        }
        go = changed;
    }
    // the fixpoint: sel is closed, so it is exactly reachability
    proof {
        assert(forall|q: int|
            0 <= q < n && bumped_ex(edges@, own@, q) ==> sel@[q]) by {
            assert forall|q: int| 0 <= q < n && bumped_ex(edges@, own@, q) implies sel@[q] by {
                let f = choose|f: nat| bumped(edges@, own@, q, f);
                lemma_closure_complete(edges@, own@, sel@, q, f);
            }
        }
    }
    let mut res: Vec<BumpLevel> = Vec::new();
    let mut p: usize = 0;
    while p < n
        invariant
            0 <= p <= n,
            n == own@.len(),
            sel@.len() == n,
            res@.len() == p,
            forall|q: int| 0 <= q < n && sel@[q] ==> bumped_ex(edges@, own@, q),
            forall|q: int| 0 <= q < n && bumped_ex(edges@, own@, q) ==> sel@[q],
            forall|j: int|
                0 <= j < edges@.len() ==> (#[trigger] edges@[j]).0 < n && edges@[j].1 < n,
            forall|q: int| 0 <= q < p ==> res@[q] == resolved(edges@, own@, q),
        decreases n - p,
    {
        let lvl = if !matches!(own[p], BumpLevel::NoBump) {
            own[p]
        } else {
            // only a dependency can force this package along
            let mut dep = false;
            let mut j: usize = 0;
            while j < edges.len()
                invariant
                    n == own@.len(),
                    sel@.len() == n,
                    p < n,
                    forall|jj: int|
                        0 <= jj < edges@.len() ==> (#[trigger] edges@[jj]).0 < n && edges@[jj].1
                            < n,
                    forall|q: int| 0 <= q < n && sel@[q] ==> bumped_ex(edges@, own@, q),
                    dep ==> dep_bumped(edges@, own@, p as int),
                    !dep ==> forall|jj: int|
                        0 <= jj < j && (#[trigger] edges@[jj]).0 == p ==> !sel@[edges@[jj].1 as int],
                decreases edges@.len() - j,
            {
                let (a, b) = edges[j];
                if a == p && sel[b] {
                    proof {
                        assert((#[trigger] edges@[j as int]).0 == p as int && bumped_ex(
                            edges@,
                            own@,
                            edges@[j as int].1 as int,
                        ));
                    }
                    dep = true;
                }
                j = j + 1;
            }
            proof {
                if !dep {
                    assert(!dep_bumped(edges@, own@, p as int)) by {
                        if dep_bumped(edges@, own@, p as int) {
                            let jj = choose|jj: int|
                                0 <= jj < edges@.len() && (#[trigger] edges@[jj]).0 == p as int
                                    && bumped_ex(edges@, own@, edges@[jj].1 as int);
                            assert(sel@[edges@[jj].1 as int]);
                        }
                    }
                }
            }
            if dep {
                BumpLevel::Patch
            } else {
                BumpLevel::NoBump
            }
        };
        res.push(lvl);
        p = p + 1;
    }
    res
}

/// A forced release deep in a dependency chain lifts every package above
/// it to at least a patch release, even with no qualifying commits of its
/// own: with `a` depending on `b` and `b` on `c`, a release of `c` forces
/// `b` and `a` along.
pub proof fn lemma_bump_propagation(
    edges: Seq<(usize, usize)>,
    own: Seq<BumpLevel>,
    a: usize,
    b: usize,
    c: usize,
    ja: int,
    jb: int,
)
    requires
        (a as int) < own.len() && (b as int) < own.len() && (c as int) < own.len(),
        0 <= ja < edges.len() && 0 <= jb < edges.len(),
        edges[ja].0 == a && edges[ja].1 == b,
        edges[jb].0 == b && edges[jb].1 == c,
        own[c as int] != BumpLevel::NoBump,
    ensures
        resolved(edges, own, c as int) == own[c as int],
        resolved(edges, own, b as int).rank() >= BumpLevel::Patch.rank(),
        resolved(edges, own, a as int).rank() >= BumpLevel::Patch.rank(),
{
    assert(bumped(edges, own, c as int, 0));
    assert(bumped_ex(edges, own, c as int));
    assert(dep_bumped(edges, own, b as int)) by {
        assert((#[trigger] edges[jb]).0 == b as int && bumped_ex(edges, own, edges[jb].1 as int));
    }
    assert(bumped(edges, own, b as int, 1)) by {
        assert((#[trigger] edges[jb]).0 == b as int && bumped(edges, own, edges[jb].1 as int, 0));
    }
    assert(bumped_ex(edges, own, b as int));
    assert(dep_bumped(edges, own, a as int)) by {
        assert((#[trigger] edges[ja]).0 == a as int && bumped_ex(edges, own, edges[ja].1 as int));
    }
}

} // verus!
