//! The triangle lists of the note meshes: which vertices each triangle joins.

use vstd::prelude::*;

verus! {

/// The hollow arch's triangles: its outer edge is vertices 0 to 4, its inner
/// edge 5 to 9, and each of the four segments between them is two triangles,
/// `(i, i + 5, i + 6)` and `(i, i + 6, i + 1)`; the bottom is left open.
pub open spec fn arch_triangle(i: int) -> Seq<u32> {
    seq![i as u32, (i + 5) as u32, (i + 6) as u32, i as u32, (i + 6) as u32, (i + 1) as u32]
}

pub open spec fn arch_indices(n: int) -> Seq<u32>
    decreases n,
{
    if n <= 0 {
        Seq::empty()
    } else {
        arch_indices(n - 1) + arch_triangle(n - 1)
    }
}

/// The vertex indices of the hollow arch mesh, three per triangle.
pub fn hollow_arch_indices() -> (v: Vec<u32>)
    ensures
        v@ == arch_indices(4),
{
    let mut v: Vec<u32> = Vec::new();
    let mut i: u32 = 0;
    while i < 4
        invariant
            i <= 4,
            v@ == arch_indices(i as int),
        decreases 4 - i,
    {
        v.push(i);
        v.push(i + 5);
        v.push(i + 6);
        v.push(i);
        v.push(i + 6);
        v.push(i + 1);
        assert(v@ =~= arch_indices(i as int) + arch_triangle(i as int));
        i = i + 1;
    }
    v
}

/// The two triangles of the hollow star between ring positions `i` and the
/// next one round, with `n` vertices per ring: the outer ring is vertices
/// `0..n`, the inner ring `n..2n`.
pub open spec fn star_quad(i: int, n: int) -> Seq<u32> {
    let next = (i + 1) % n;
    seq![i as u32, next as u32, (i + n) as u32, next as u32, (next + n) as u32, (i + n) as u32]
}

pub open spec fn star_indices(k: int, n: int) -> Seq<u32>
    decreases k,
{
    if k <= 0 {
        Seq::empty()
    } else {
        star_indices(k - 1, n) + star_quad(k - 1, n)
    }
}

/// The vertex indices of a hollow star with `num_points` points: two rings of
/// `2 * num_points` vertices each, stitched together all the way round.
pub fn hollow_star_indices(num_points: usize) -> (v: Vec<u32>)
    requires
        4 * num_points <= usize::MAX + 1,
    ensures
        v@ == star_indices(2 * num_points, 2 * num_points),
{
    let n = num_points * 2;
    let mut v: Vec<u32> = Vec::new();
    let mut i: usize = 0;
    while i < n
        invariant
            i <= n,
            n == 2 * num_points,
            4 * num_points <= usize::MAX + 1,
            v@ == star_indices(i as int, n as int),
        decreases n - i,
    {
        let next = (i + 1) % n;
        v.push(i as u32);
        v.push(next as u32);
        v.push((i + n) as u32);
        v.push(next as u32);
        v.push((next + n) as u32);
        v.push((i + n) as u32);
        assert(v@ =~= star_indices(i as int, n as int) + star_quad(i as int, n as int));
        i = i + 1;
    }
    v
}

/// Every index of the hollow star names one of its `4 * num_points` vertices,
/// as long as they can all be numbered in a `u32`.
pub proof fn lemma_star_indices_in_range(num_points: int, k: int)
    requires
        0 < num_points,
        4 * num_points <= 0x1_0000_0000,
        0 <= k <= 2 * num_points,
    ensures
        star_indices(k, 2 * num_points).len() == 6 * k,
        forall|j: int|
            0 <= j < star_indices(k, 2 * num_points).len() ==> (#[trigger] star_indices(k, 2 * num_points)[j]) < 4
                * num_points,
    decreases k,
{
    let n = 2 * num_points;
    if k > 0 {
        lemma_star_indices_in_range(num_points, k - 1);
        let i = k - 1;
        let next = (i + 1) % n;
        assert(0 <= next < n);
        assert(star_indices(k, n) == star_indices(k - 1, n) + star_quad(i, n));
        assert forall|j: int| 0 <= j < star_indices(k, n).len() implies (#[trigger] star_indices(k, n)[j]) < 4
            * num_points by {
            if j >= star_indices(k - 1, n).len() {
                let q = star_quad(i, n);
                assert(star_indices(k, n)[j] == q[j - star_indices(k - 1, n).len()]);
            }
        }
    }
}

/// Every index of the hollow arch names one of its ten vertices.
pub proof fn lemma_arch_indices_in_range()
    ensures
        arch_indices(4).len() == 24,
        forall|j: int| 0 <= j < 24 ==> (#[trigger] arch_indices(4)[j]) < 10,
{
    reveal_with_fuel(arch_indices, 5);
    assert(arch_indices(4) =~= seq![
        0u32, 5, 6, 0, 6, 1,
        1, 6, 7, 1, 7, 2,
        2, 7, 8, 2, 8, 3,
        3, 8, 9, 3, 9, 4,
    ]);
}

} // verus!
