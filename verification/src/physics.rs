//! Physics bookkeeping that does not touch the simulation itself: the
//! collision groups that a collider belongs to and filters by, and the
//! triangles that a triangle-mesh collider is built from.

use vstd::prelude::*;

verus! {

/// A set of the 32 collision groups, one bit each: group `n` (counted from
/// 1) is bit `n - 1`.
#[derive(Clone, Copy, PartialEq, Eq, Structural, Debug)]
pub struct CollisionGroups {
    pub bits: u32,
}

/// The bit of group `n`.
pub open spec fn group_bit(n: u32) -> u32
    recommends
        1 <= n <= 32,
{
    1u32 << ((n - 1) as u32)
}

/// Whether `g` holds group `n`.
pub open spec fn has_group(g: CollisionGroups, n: u32) -> bool {
    g.bits & group_bit(n) != 0
}

impl CollisionGroups {
    /// The set that holds group `n` alone.
    pub fn group(n: u32) -> (r: CollisionGroups)
        requires
            1 <= n <= 32,
        ensures
            r.bits == group_bit(n),
    {
        CollisionGroups { bits: 1u32 << (n - 1) }
    }

    /// The first group alone: what a collider belongs to and collides with
    /// where nothing else is asked for.
    pub fn group1() -> (r: CollisionGroups)
        ensures
            r.bits == group_bit(1),
    {
        Self::group(1)
    }

    /// The groups of both sets.
    pub fn union(self, other: CollisionGroups) -> (r: CollisionGroups)
        ensures
            r.bits == self.bits | other.bits,
    {
        CollisionGroups { bits: self.bits | other.bits }
    }

    /// Whether the set holds group `n`.
    pub fn contains_group(self, n: u32) -> (r: bool)
        requires
            1 <= n <= 32,
        ensures
            r == has_group(self, n),
    {
        self.bits & (1u32 << (n - 1)) != 0
    }
}

/// The groups that a new collider belongs to and collides with: each one
/// that is not given is the first group alone.
pub fn resolve_collision_groups(
    membership: Option<CollisionGroups>,
    filter: Option<CollisionGroups>,
) -> (r: (CollisionGroups, CollisionGroups))
    ensures
        r.0.bits == match membership {
            Some(g) => g.bits,
            None => group_bit(1),
        },
        r.1.bits == match filter {
            Some(g) => g.bits,
            None => group_bit(1),
        },
{
    let membership_groups = match membership {
        Some(groups) => groups,
        None => CollisionGroups::group1(),
    };
    let filter_groups = match filter {
        Some(groups) => groups,
        None => CollisionGroups::group1(),
    };
    (membership_groups, filter_groups)
}

/// Group `m` is in the set of group `n` alone exactly when `m` is `n`.
pub proof fn lemma_group_alone(n: u32, m: u32)
    requires
        1 <= n <= 32,
        1 <= m <= 32,
    ensures
        has_group(CollisionGroups { bits: group_bit(n) }, m) <==> m == n,
{
    let a = (n - 1) as u32;
    let b = (m - 1) as u32;
    assert((1u32 << a) & (1u32 << b) != 0 <==> a == b) by (bit_vector)
        requires
            a < 32,
            b < 32,
    ;
}

/// A group is in the union of two sets exactly when it is in one of them.
pub proof fn lemma_union_has_group(a: CollisionGroups, b: CollisionGroups, n: u32)
    requires
        1 <= n <= 32,
    ensures
        has_group(CollisionGroups { bits: a.bits | b.bits }, n) <==> has_group(a, n) || has_group(
            b,
            n,
        ),
{
    let x = a.bits;
    let y = b.bits;
    let k = (n - 1) as u32;
    assert(((x | y) & (1u32 << k) != 0) <==> (x & (1u32 << k) != 0 || y & (1u32 << k) != 0))
        by (bit_vector)
        requires
            k < 32,
    ;
}

/// Whether `tris` are the triangles of the index list `indices`: every
/// full triple, in order; a last group of fewer than three indices names
/// no triangle.
pub open spec fn triangles_of(indices: Seq<u32>, tris: Seq<[u32; 3]>) -> bool {
    &&& tris.len() == indices.len() / 3
    &&& forall|k: int|
        0 <= k < tris.len() ==> #[trigger] tris[k]@ == seq![
            indices[3 * k],
            indices[3 * k + 1],
            indices[3 * k + 2],
        ]
}

/// The triangles of a triangle-mesh collider, from the index list of the
/// mesh it is built from (the first one that the model holds).
pub fn trimesh_triangles(indices: &Vec<u32>) -> (r: Vec<[u32; 3]>)
    ensures
        triangles_of(indices@, r@),
{
    let n = indices.len();
    let count = n / 3;
    let mut triangles: Vec<[u32; 3]> = Vec::new();
    let mut k: usize = 0;
    while k < count
        invariant
            n == indices@.len(),
            count == indices@.len() / 3,
            k <= count,
            triangles@.len() == k,
            forall|j: int|
                0 <= j < k ==> #[trigger] triangles@[j]@ == seq![
                    indices@[3 * j],
                    indices@[3 * j + 1],
                    indices@[3 * j + 2],
                ],
        decreases count - k,
    {
        assert(3 * k + 2 < indices@.len()) by (nonlinear_arith)
            requires
                k < indices@.len() / 3,
        ;
        let tri: [u32; 3] = [indices[3 * k], indices[3 * k + 1], indices[3 * k + 2]];
        assert(tri@ =~= seq![indices@[3 * k as int], indices@[3 * k + 1], indices@[3 * k + 2]]);
        triangles.push(tri);
        k = k + 1;
    }
    triangles
}

} // verus!
