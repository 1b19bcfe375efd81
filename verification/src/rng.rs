use vstd::prelude::*;

use crate::matrix::{is_rect, mview, scols};
use crate::scalar::Scalar;
use rand::{Rng, RngCore, SeedableRng};

verus! {

/// Declares `rand_pcg::Lcg128Xsl64` (the generator behind `Pcg64`) so
/// that it can stand in a field; its values are opaque here.
#[verifier::external_type_specification]
#[verifier::external_body]
pub struct ExLcg128Xsl64(rand_pcg::Lcg128Xsl64);

/// A pseudo-random source seeded explicitly by the caller, so that
/// weight initialization and row shuffling are reproducible for a
/// fixed seed.
pub struct SeededRng {
    inner: rand_pcg::Lcg128Xsl64,
}

/// Relies on `rand_core::SeedableRng::seed_from_u64` for `rand_pcg`'s
/// `Pcg64`: builds the generator deterministically from the seed.
#[verifier::external_body]
fn pcg_from_seed(seed: u64) -> rand_pcg::Lcg128Xsl64 {
    rand_pcg::Lcg128Xsl64::seed_from_u64(seed)
}

/// Relies on `rand::Rng::gen_range` over `0..n`: it panics only on an
/// empty range and returns a value within the range.
#[verifier::external_body]
fn rand_index(rng: &mut SeededRng, n: usize) -> (r: usize)
    requires
        n > 0,
    ensures
        r < n,
{
    rng.inner.gen_range(0..n)
}

/// Relies on `rand_core::RngCore::next_u64` for `rand_pcg`'s `Pcg64`:
/// advances the generator and hands back its next word.  Nothing is
/// promised of the value.
#[verifier::external_body]
fn rand_bits(rng: &mut SeededRng) -> u64 {
    rng.inner.next_u64()
}

impl SeededRng {
    /// A generator whose draws are a function of the given seed alone.
    pub fn new(seed: u64) -> SeededRng {
        SeededRng { inner: pcg_from_seed(seed) }
    }
}

/// Permutes the rows of the matrix in place, drawing each next row
/// uniformly from the rows not yet placed, so every permutation of the
/// rows can come out.  The rows themselves are kept exactly: the new
/// row order is a permutation of the old one.
pub fn shuffle_matrix<T: Scalar>(matrix: &mut Vec<Vec<T>>, rng: &mut SeededRng)
    ensures
        final(matrix)@.to_multiset() == old(matrix)@.to_multiset(),
        final(matrix)@.len() == old(matrix)@.len(),
        is_rect(mview(*old(matrix))) ==> is_rect(mview(*final(matrix))) && scols(
            mview(*final(matrix)),
        ) == scols(mview(*old(matrix))),
{
    broadcast use vstd::seq_lib::group_to_multiset_ensures;
    broadcast use vstd::multiset::group_multiset_axioms;

    let ghost orig = matrix@;
    let ghost c = scols(mview(*matrix));
    let ghost was_rect = is_rect(mview(*matrix));
    proof {
        if was_rect {
            assert(forall|i: int|
                0 <= i < orig.len() ==> (#[trigger] orig[i]@).len() == c) by {
                assert(forall|i: int|
                    0 <= i < orig.len() ==> mview(*matrix)[i] == #[trigger] orig[i]@);
            }
        }
    }
    let mut shuffled: Vec<Vec<T>> = Vec::new();
    proof {
        assert(shuffled@.to_multiset().add(matrix@.to_multiset()) =~= orig.to_multiset());
    }
    while matrix.len() > 0
        invariant
            shuffled@.to_multiset().add(matrix@.to_multiset()) == orig.to_multiset(),
            shuffled@.len() + matrix@.len() == orig.len(),
            was_rect ==> forall|i: int|
                0 <= i < matrix@.len() ==> (#[trigger] matrix@[i]@).len() == c,
            was_rect ==> forall|i: int|
                0 <= i < shuffled@.len() ==> (#[trigger] shuffled@[i]@).len() == c,
        decreases matrix@.len(),
    {
        let ghost before = matrix@;
        let ghost placed = shuffled@;
        let j = rand_index(rng, matrix.len());
        let row = matrix.remove(j);
        proof {
            assert(before.contains(before[j as int]));
            vstd::seq_lib::to_multiset_contains(before, before[j as int]);
            assert(before.to_multiset().count(before[j as int]) > 0);
        }
        shuffled.push(row);
        proof {
            vstd::seq_lib::to_multiset_remove(before, j as int);
            vstd::seq_lib::to_multiset_build(placed, before[j as int]);
            assert(matrix@ == before.remove(j as int));
            assert(matrix@.to_multiset() == before.to_multiset().remove(before[j as int]));
            assert(shuffled@ == placed.push(before[j as int]));
            assert(shuffled@.to_multiset() =~= placed.to_multiset().insert(before[j as int]));
            assert(shuffled@.to_multiset().add(matrix@.to_multiset()) =~= orig.to_multiset());
            if was_rect {
                assert(forall|i: int|
                    0 <= i < matrix@.len() ==> matrix@[i] == before.remove(j as int)[i]);
            }
        }
    }
    *matrix = shuffled;
    proof {
        assert(matrix@.to_multiset().add(Seq::<Vec<T>>::empty().to_multiset())
            =~= matrix@.to_multiset());
        if was_rect {
            if matrix@.len() > 0 {
                assert(mview(*matrix)[0] == matrix@[0]@);
            }
            assert(forall|i: int|
                0 <= i < matrix@.len() ==> (#[trigger] mview(*matrix)[i]).len() == c) by {
                assert(forall|i: int|
                    0 <= i < matrix@.len() ==> mview(*matrix)[i] == #[trigger] matrix@[i]@);
            }
            assert(is_rect(mview(*matrix)));
        }
    }
}

/// Whether every entry of a matrix lies in its scalar's rendering of
/// the unit interval centred at zero, as freshly initialized weights
/// must.
pub open spec fn entries_unit_range<T: Scalar>(m: Seq<Seq<T>>) -> bool {
    forall|i: int, j: int|
        0 <= i < m.len() && 0 <= j < m[i].len() ==> (#[trigger] m[i][j]).unit_range_spec()
}

/// A matrix of the given shape whose entries come from the scalar's
/// rendering of uniform random draws in the unit interval centred at
/// zero.  Which entries come out depends on the generator's state;
/// the shape and the initialization range do not.
pub fn rand_matrix<T: Scalar>(rows: usize, columns: usize, rng: &mut SeededRng) -> (r: Vec<Vec<T>>)
    ensures
        mview(r).len() == rows,
        is_rect(mview(r)),
        rows > 0 ==> scols(mview(r)) == columns,
        forall|i: int| 0 <= i < rows ==> (#[trigger] mview(r)[i]).len() == columns,
        entries_unit_range(mview(r)),
{
    let mut result: Vec<Vec<T>> = Vec::new();
    for _i in 0..rows
        invariant
            result@.len() == _i,
            forall|p: int| 0 <= p < _i ==> (#[trigger] result@[p]@).len() == columns,
            forall|p: int, q: int|
                0 <= p < _i && 0 <= q < columns ==> (#[trigger] result@[p]@[q]).unit_range_spec(),
    {
        let mut row: Vec<T> = Vec::new();
        for _j in 0..columns
            invariant
                row@.len() == _j,
                forall|q: int| 0 <= q < _j ==> (#[trigger] row@[q]).unit_range_spec(),
        {
            let bits = rand_bits(rng);
            let entry = T::from_random(bits);
            row.push(entry);
        }
        result.push(row);
    }
    proof {
        assert(forall|i: int|
            0 <= i < result@.len() ==> mview(result)[i] == #[trigger] result@[i]@);
    }
    result
}

} // verus!
