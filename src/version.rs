//! Semantic versions: their order, their text, and a descending sort.
use vstd::prelude::*;
use crate::text::{dec, decimal, concat};

verus! {

broadcast use vstd::seq_lib::group_seq_properties;

/// A release number `major.minor.patch`.
#[derive(Clone, Copy, Debug, PartialEq, Eq, Structural, Hash)]
pub struct SemanticVersion {
    pub major: u64,
    pub minor: u64,
    pub patch: u64,
}

/// `a` comes strictly after `b` in the order by (major, minor, patch).
pub open spec fn newer(a: SemanticVersion, b: SemanticVersion) -> bool {
    a.major > b.major || (a.major == b.major && a.minor > b.minor) || (a.major == b.major
        && a.minor == b.minor && a.patch > b.patch)
}

/// The text `X.Y.Z` of a version.
pub open spec fn version_text(major: u64, minor: u64, patch: u64) -> Seq<char> {
    dec(major as nat) + seq!['.'] + dec(minor as nat) + seq!['.'] + dec(patch as nat)
}

/// Newest first: no element is newer than one before it.
pub open spec fn sorted_desc(s: Seq<SemanticVersion>) -> bool {
    forall|i: int, j: int| 0 <= i < j < s.len() ==> !newer(#[trigger] s[j], #[trigger] s[i])
}

/// The order is strict and total: exactly one of `a` newer, `b` newer, or equal holds,
/// and it is transitive.
pub proof fn lemma_strict_total_order(a: SemanticVersion, b: SemanticVersion, c: SemanticVersion)
    ensures
        !newer(a, a),
        newer(a, b) ==> !newer(b, a),
        a == b || newer(a, b) || newer(b, a),
        newer(a, b) && newer(b, c) ==> newer(a, c),
{
}

impl SemanticVersion {
    pub fn new(major: u64, minor: u64, patch: u64) -> (r: SemanticVersion)
        ensures
            r == (SemanticVersion { major, minor, patch }),
    {
        SemanticVersion { major, minor, patch }
    }

    /// Whether `self` comes strictly after `other`.
    pub fn is_newer_than(&self, other: &SemanticVersion) -> (r: bool)
        ensures
            r == newer(*self, *other),
    {
        self.major > other.major || (self.major == other.major && self.minor > other.minor) || (
        self.major == other.major && self.minor == other.minor && self.patch > other.patch)
    }

    /// The text `X.Y.Z`.
    pub fn to_text(&self) -> (r: String)
        ensures
            r@ == version_text(self.major, self.minor, self.patch),
    {
        proof {
            reveal_strlit(".");
        }
        let mut s = decimal(self.major);
        s.append(".");
        let minor = decimal(self.minor);
        s.append(minor.as_str());
        s.append(".");
        let patch = decimal(self.patch);
        s.append(patch.as_str());
        s
    }

    /// The text `vX.Y.Z`.
    pub fn to_tag(&self) -> (r: String)
        ensures
            r@ == seq!['v'] + version_text(self.major, self.minor, self.patch),
    {
        proof {
            reveal_strlit("v");
        }
        let t = self.to_text();
        concat("v", t.as_str())
    }
}

/// Sorts newest first. Equal versions are indistinguishable, so the sort is
/// trivially stable.
pub fn sort_descending(v: &mut Vec<SemanticVersion>)
    ensures
        final(v)@.to_multiset() == old(v)@.to_multiset(),
        sorted_desc(final(v)@),
{
    let input = v.clone();
    let mut out: Vec<SemanticVersion> = Vec::new();
    let mut i: usize = 0;
    while i < input.len()
        invariant
            i <= input@.len(),
            input@ == old(v)@,
            out@.to_multiset() == input@.subrange(0, i as int).to_multiset(),
            sorted_desc(out@),
        decreases input@.len() - i,
    {
        let x = input[i];
        let mut p: usize = 0;
        while p < out.len() && !x.is_newer_than(&out[p])
            invariant
                p <= out@.len(),
                forall|k: int| 0 <= k < p ==> !newer(x, #[trigger] out@[k]),
            decreases out@.len() - p,
        {
            p = p + 1;
        }
        proof {
            // everything from p on is older than x: it is older than or equal to out[p]
            assert forall|k: int| p <= k < out@.len() implies newer(x, #[trigger] out@[k]) by {
                if k > p {
                    assert(!newer(out@[k], out@[p as int]));
                }
            }
        }
        let ghost before = out@;
        out.insert(p, x);
        proof {
            assert(input@.subrange(0, i + 1) == input@.subrange(0, i as int).push(x));
            assert forall|a: int, b: int| 0 <= a < b < out@.len() implies !newer(
                #[trigger] out@[b],
                #[trigger] out@[a],
            ) by {
                if a < p && b > p {
                    assert(!newer(x, before[a]));
                    assert(newer(x, before[b - 1]));
                } else if a == p && b > p {
                    assert(newer(x, before[b - 1]));
                } else if b == p {
                    assert(!newer(x, before[a]));
                } else if a > p {
                    assert(!newer(before[b - 1], before[a - 1]));
                } else {
                    assert(!newer(before[b], before[a]));
                }
            }
        }
        i = i + 1;
    }
    proof {
        assert(input@.subrange(0, input@.len() as int) == input@);
    }
    *v = out;
}

} // verus!
