//! Choosing the nearest visible surface among the candidates met by one ray.
//!
//! Distances are handed over as ranks: unsigned integers that compare as the
//! distances they stand for.

use vstd::prelude::*;

verus! {

/// Which surface a ray meets first.
#[derive(Clone, Copy, Debug, PartialEq, Eq, Structural)]
pub enum Nearest {
    /// Nothing nearer than the horizon.
    Miss,
    /// The sphere at `index`, met at `distance`.
    Sphere { index: usize, distance: u64 },
    /// The ground plane, met at `distance`.
    Plane { distance: u64 },
}

/// `index` holds the smallest distance of `spheres`, and is the first to hold it.
pub open spec fn first_minimum(spheres: Seq<Option<u64>>, index: int, distance: u64) -> bool {
    &&& 0 <= index < spheres.len()
    &&& spheres[index] == Some(distance)
    &&& forall|j: int|
        0 <= j < spheres.len() ==> match #[trigger] spheres[j] {
            Some(d) => distance <= d && (j < index ==> distance < d),
            None => true,
        }
}

/// No sphere is met at `distance` or nearer.
pub open spec fn all_beyond(spheres: Seq<Option<u64>>, distance: u64) -> bool {
    forall|j: int|
        0 <= j < spheres.len() ==> match #[trigger] spheres[j] {
            Some(d) => distance < d,
            None => true,
        }
}

/// The rule by which one candidate wins: the nearest sphere, the earlier one of
/// two equally near; the plane only where it is strictly nearer than every
/// sphere; and nothing at all where the winner lies at the horizon or beyond.
pub open spec fn is_nearest(
    spheres: Seq<Option<u64>>,
    plane: Option<u64>,
    horizon: u64,
    out: Nearest,
) -> bool {
    match out {
        Nearest::Sphere { index, distance } => {
            &&& first_minimum(spheres, index as int, distance)
            &&& distance < horizon
            &&& plane matches Some(p) ==> distance <= p
        },
        Nearest::Plane { distance } => {
            &&& plane == Some(distance)
            &&& distance < horizon
            &&& all_beyond(spheres, distance)
        },
        Nearest::Miss => {
            &&& forall|j: int|
                0 <= j < spheres.len() ==> match #[trigger] spheres[j] {
                    Some(d) => horizon <= d,
                    None => true,
                }
            &&& plane matches Some(p) ==> horizon <= p
        },
    }
}

/// Picks the surface that a ray meets first, given the distance at which it
/// meets each sphere (if it does) and the ground plane (if it does).
pub fn nearest(spheres: &Vec<Option<u64>>, plane: Option<u64>, horizon: u64) -> (out: Nearest)
    ensures
        is_nearest(spheres@, plane, horizon, out),
{
    let mut best: Option<(usize, u64)> = None;
    let mut i: usize = 0;
    while i < spheres.len()
        invariant
            i <= spheres.len(),
            match best {
                Some((index, distance)) => index < i && first_minimum(
                    spheres@.take(i as int),
                    index as int,
                    distance,
                ),
                None => forall|j: int| 0 <= j < i ==> spheres@[j] is None,
            },
        decreases spheres.len() - i,
    {
        let improved = match (spheres[i], best) {
            (Some(d), Some((_, distance))) => d < distance,
            (Some(_), None) => true,
            (None, _) => false,
        };
        proof {
            let before = spheres@.take(i as int);
            let after = spheres@.take(i + 1);
            assert forall|j: int| 0 <= j < i implies #[trigger] after[j] == before[j] by {}
            assert(after[i as int] == spheres@[i as int]);
        }
        if improved {
            best = Some((i, spheres[i].unwrap()));
        }
        i += 1;
    }
    assert(spheres@.take(i as int) =~= spheres@);
    match (best, plane) {
        (Some((index, distance)), Some(p)) => {
            if p < distance {
                if p < horizon {
                    Nearest::Plane { distance: p }
                } else {
                    Nearest::Miss
                }
            } else if distance < horizon {
                Nearest::Sphere { index, distance }
            } else {
                Nearest::Miss
            }
        },
        (Some((index, distance)), None) => {
            if distance < horizon {
                Nearest::Sphere { index, distance }
            } else {
                Nearest::Miss
            }
        },
        (None, Some(p)) => {
            if p < horizon {
                Nearest::Plane { distance: p }
            } else {
                Nearest::Miss
            }
        },
        (None, None) => Nearest::Miss,
    }
}

/// The rule picks one candidate and no other.
pub proof fn lemma_nearest_unique(
    spheres: Seq<Option<u64>>,
    plane: Option<u64>,
    horizon: u64,
    a: Nearest,
    b: Nearest,
)
    requires
        is_nearest(spheres, plane, horizon, a),
        is_nearest(spheres, plane, horizon, b),
    ensures
        a == b,
{
    match (a, b) {
        (
            Nearest::Sphere { index: i, distance: d },
            Nearest::Sphere { index: j, distance: e },
        ) => {
            assert(spheres[i as int] == Some(d));
            assert(spheres[j as int] == Some(e));
        },
        (Nearest::Sphere { index, distance }, _) => {
            assert(spheres[index as int] == Some(distance));
        },
        (_, Nearest::Sphere { index, distance }) => {
            assert(spheres[index as int] == Some(distance));
        },
        _ => {},
    }
}

/// A cell of the checkerboard is odd when the numbers of its column and its
/// row add up to an odd number; the two kinds of cell have the two shades.
pub open spec fn odd_cell(cell_x: int, cell_z: int) -> bool {
    (cell_x + cell_z) % 2 == 1
}

/// Tells which of its two shades the ground plane has in the cell at
/// (`cell_x`, `cell_z`).
pub fn checker(cell_x: i32, cell_z: i32) -> (odd: bool)
    ensures
        odd == odd_cell(cell_x as int, cell_z as int),
{
    let low: i32 = (cell_x ^ cell_z) & 1;
    assert(((cell_x ^ cell_z) & 1 == 1) == ((cell_x & 1 == 1) != (cell_z & 1 == 1)))
        by (bit_vector);
    assert((cell_x & 1 == 1) == (cell_x % 2 != 0)) by (bit_vector);
    assert((cell_z & 1 == 1) == (cell_z % 2 != 0)) by (bit_vector);
    low == 1
}

} // verus!
