//! Release management core: a changelog document model with a lossless
//! bidirectional text codec, a version-bump resolver over a dependency
//! graph, and a publish-order planner.

pub mod bump;
pub mod classify;
pub mod codec;
pub mod decode;
pub mod generate;
pub mod laws;
pub mod model;
pub mod plan;
pub mod text;

use vstd::prelude::*;

verus! {

/// How far a package's version must move for the next release.
/// Levels form a total order: `NoBump < Patch < Minor < Major`.
#[derive(Clone, Copy, PartialEq, Eq, Structural, Debug)]
pub enum BumpLevel {
    NoBump,
    Patch,
    Minor,
    Major,
}

impl BumpLevel {
    /// Rank of a level in the total order.
    pub open spec fn rank(self) -> int {
        match self {
            BumpLevel::NoBump => 0,
            BumpLevel::Patch => 1,
            BumpLevel::Minor => 2,
            BumpLevel::Major => 3,
        }
    }

    /// The larger of two levels in the total order.
    pub fn lmax(self, other: BumpLevel) -> (r: BumpLevel)
        ensures
            r.rank() == if self.rank() >= other.rank() { self.rank() } else { other.rank() },
            r == self || r == other,
    {
        let a: u8 = match self {
            BumpLevel::NoBump => 0,
            BumpLevel::Patch => 1,
            BumpLevel::Minor => 2,
            BumpLevel::Major => 3,
        };
        let b: u8 = match other {
            BumpLevel::NoBump => 0,
            BumpLevel::Patch => 1,
            BumpLevel::Minor => 2,
            BumpLevel::Major => 3,
        };
        if a >= b { self } else { other }
    }
}

/// The packages a run works on: the ones named by the caller, or, when
/// none were named, the surrounding workspace's own package.
pub fn effective_crate_names(names: Vec<Vec<u8>>, fallback: Vec<u8>) -> (r: Vec<Vec<u8>>)
    ensures
        names@.len() == 0 ==> r.deep_view() == seq![fallback@],
        names@.len() > 0 ==> r == names,
{
    if names.len() == 0 {
        let mut r: Vec<Vec<u8>> = Vec::new();
        r.push(fallback);
        proof {
            assert(r.deep_view() =~~= seq![fallback@]);
        }
        r
    } else {
        names
    }
}

} // verus!
