//! Choice of building faces that receive balconies or storefronts.
//!
//! Faces are numbered 0 = right (+X), 1 = left (-X), 2 = front (+Z) and
//! 3 = back (-Z).

use crate::rng::{random_bool, random_usize_inclusive};
use rand::rngs::StdRng;
use vstd::prelude::*;

verus! {

/// `s` lists distinct faces.
pub open spec fn distinct_faces(s: Seq<usize>) -> bool {
    &&& s.no_duplicates()
    &&& forall|k: int| 0 <= k < s.len() ==> #[trigger] s[k] < 4
}

/// `s` with the entries at `i` and `j` exchanged.
pub open spec fn swapped(s: Seq<usize>, i: int, j: int) -> Seq<usize> {
    s.update(i, s[j]).update(j, s[i])
}

/// The face order that the Fisher-Yates pass leaves when position 3 is
/// swapped with `draws[0]`, then position 2 with `draws[1]`, then position
/// 1 with `draws[2]`, starting from faces 0, 1, 2, 3.
pub open spec fn fisher_yates(draws: Seq<usize>) -> Seq<usize> {
    swapped(
        swapped(swapped(seq![0usize, 1usize, 2usize, 3usize], 3, draws[0] as int), 2, draws[1] as int),
        1,
        draws[2] as int,
    )
}

/// The draws of a Fisher-Yates pass over four faces: each pairs a position
/// with an entry at or before it.
pub open spec fn valid_draws(draws: Seq<usize>) -> bool {
    &&& draws.len() == 3
    &&& draws[0] <= 3
    &&& draws[1] <= 2
    &&& draws[2] <= 1
}

/// Swap two entries of the face order.
fn swap_entries(indices: &mut Vec<usize>, i: usize, j: usize)
    requires
        i < old(indices)@.len(),
        j < old(indices)@.len(),
    ensures
        final(indices)@ == swapped(old(indices)@, i as int, j as int),
{
    let a = indices[i];
    let b = indices[j];
    indices.set(i, b);
    indices.set(j, a);
}

/// Swapping two entries keeps the entries distinct faces.
proof fn lemma_swap_keeps_distinct(s: Seq<usize>, i: int, j: int)
    requires
        s.len() == 4,
        distinct_faces(s),
        0 <= i < 4,
        0 <= j < 4,
    ensures
        swapped(s, i, j).len() == 4,
        distinct_faces(swapped(s, i, j)),
{
    let t = swapped(s, i, j);
    assert forall|a: int, b: int| 0 <= a < 4 && 0 <= b < 4 && a != b implies t[a] != t[b] by {
        assert(s[a] != s[b]);
    }
}

/// The face order for given draws: the Fisher-Yates pass from the last
/// position down to the second, swapping each with the drawn entry.
pub fn face_order(draws: &[usize; 3]) -> (r: Vec<usize>)
    requires
        valid_draws(draws@),
    ensures
        r@ == fisher_yates(draws@),
        r@.len() == 4,
        distinct_faces(r@),
{
    let mut indices: Vec<usize> = Vec::new();
    indices.push(0);
    indices.push(1);
    indices.push(2);
    indices.push(3);
    proof {
        assert(indices@ =~= seq![0usize, 1usize, 2usize, 3usize]);
        assert(distinct_faces(indices@));
        let s0 = indices@;
        lemma_swap_keeps_distinct(s0, 3, draws@[0] as int);
        let s1 = swapped(s0, 3, draws@[0] as int);
        lemma_swap_keeps_distinct(s1, 2, draws@[1] as int);
        let s2 = swapped(s1, 2, draws@[1] as int);
        lemma_swap_keeps_distinct(s2, 1, draws@[2] as int);
    }
    swap_entries(&mut indices, 3, draws[0]);
    swap_entries(&mut indices, 2, draws[1]);
    swap_entries(&mut indices, 1, draws[2]);
    indices
}

/// The four face indices in a random order, shuffled Fisher-Yates style:
/// from the last position down to the second, each entry is swapped with a
/// random entry at or before it.
pub fn shuffled_face_indices(rng: &mut StdRng) -> (r: Vec<usize>)
    ensures
        exists|draws: Seq<usize>| valid_draws(draws) && r@ == fisher_yates(draws),
        r@.len() == 4,
        distinct_faces(r@),
{
    let d3 = random_usize_inclusive(rng, 0, 3);
    let d2 = random_usize_inclusive(rng, 0, 2);
    let d1 = random_usize_inclusive(rng, 0, 1);
    let draws = [d3, d2, d1];
    let r = face_order(&draws);
    assert(valid_draws(draws@));
    r
}

/// The first `num_faces` faces of a random face order.
pub fn pick_face_indices(rng: &mut StdRng, num_faces: usize) -> (r: Vec<usize>)
    requires
        num_faces <= 4,
    ensures
        exists|draws: Seq<usize>| valid_draws(draws) && r@ == fisher_yates(draws).take(num_faces as int),
        r@.len() == num_faces,
        distinct_faces(r@),
{
    let order = shuffled_face_indices(rng);
    let mut r: Vec<usize> = Vec::new();
    let mut k: usize = 0;
    while k < num_faces
        invariant
            k <= num_faces <= 4,
            order@.len() == 4,
            distinct_faces(order@),
            r@ == order@.take(k as int),
        decreases num_faces - k,
    {
        r.push(order[k]);
        proof {
            assert(r@ =~= order@.take(k + 1));
        }
        k = k + 1;
    }
    proof {
        assert forall|a: int, b: int| 0 <= a < r@.len() && 0 <= b < r@.len() && a != b implies r@[a]
            != r@[b] by {
            assert(r@[a] == order@[a] && r@[b] == order@[b]);
        }
    }
    r
}

/// Faces that get balconies: one or two distinct faces, chosen at random.
pub fn choose_balcony_faces(rng: &mut StdRng) -> (r: Vec<usize>)
    ensures
        exists|draws: Seq<usize>| valid_draws(draws) && r@ == fisher_yates(draws).take(r@.len() as int),
        1 <= r@.len() <= 2,
        distinct_faces(r@),
{
    let num_faces = if random_bool(rng) {
        2
    } else {
        1
    };
    pick_face_indices(rng, num_faces)
}

} // verus!
