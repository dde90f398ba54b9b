//! The vectors of a dataset that is stored as one array.
//!
//! The file itself is read elsewhere; here are the rules on what was read. Components are held as the bit
//! patterns of single-precision numbers.
use vstd::prelude::*;

use crate::readers::compound_reader::sequential_ids;

verus! {

/// How many vectors an array of that shape holds. A shape without dimensions is an error.
pub fn hdf5_train_row_count(path: &str, shape: &[usize]) -> (r: Result<u64, String>)
    ensures
        shape@.len() > 0 ==> (r matches Ok(n) && n == shape@[0]),
        shape@.len() == 0 ==> (r matches Err(e) && e@ == path@
            + ": HDF5 'train' dataset has no dimensions"@),
{
    if shape.len() == 0 {
        let mut e: String = path.to_owned();
        e.append(": HDF5 'train' dataset has no dimensions");
        return Err(e);
    }
    Ok(shape[0] as u64)
}

/// The end of row `i` in an array of `n` components.
pub open spec fn row_end(n: int, dim: int, i: int) -> int {
    if (i + 1) * dim < n {
        (i + 1) * dim
    } else {
        n
    }
}

/// The rows of an array: `dim` components each, and in the last what is left.
pub open spec fn rows_of(flat: Seq<u32>, dim: int) -> Seq<Seq<u32>> {
    Seq::new(
        ((flat.len() + dim - 1) / dim) as nat,
        |i: int| flat.subrange(i * dim, row_end(flat.len() as int, dim, i)),
    )
}

/// The views of vectors.
pub open spec fn vectors_view(vectors: Seq<Vec<u32>>) -> Seq<Seq<u32>> {
    Seq::new(vectors.len(), |i: int| vectors[i]@)
}

/// The vectors of an array, and their numbers, which count from zero.
pub fn read_hdf5_vectors(flat: &[u32], count: usize, dim: usize) -> (r: (Vec<i64>, Vec<Vec<u32>>))
    requires
        dim > 0,
        count <= i64::MAX,
    ensures
        r.0@ == Seq::new(count as nat, |i: int| i as i64),
        vectors_view(r.1@) == rows_of(flat@, dim as int),
{
    let n: usize = flat.len();
    let mut vectors: Vec<Vec<u32>> = Vec::new();
    let mut at: usize = 0;
    proof {
        assert(0 * dim == 0) by (nonlinear_arith);
        assert((dim - 1) / (dim as int) == 0) by (nonlinear_arith)
            requires
                dim > 0,
        ;
    }
    while at < n
        invariant
            at <= n,
            n == flat@.len(),
            dim > 0,
            at < n ==> at == vectors@.len() * dim,
            at == n ==> vectors@.len() == (n + dim - 1) / (dim as int),
            forall|i: int|
                0 <= i < vectors@.len() ==> (#[trigger] vectors@[i])@ == flat@.subrange(
                    i * dim,
                    row_end(n as int, dim as int, i),
                ),
        decreases n - at,
    {
        let ghost k = vectors@.len() as int;
        let end: usize = if n - at <= dim {
            n
        } else {
            at + dim
        };
        proof {
            assert((k + 1) * dim == k * dim + dim) by (nonlinear_arith);
            if n - at <= dim {
                assert((n + dim - 1) / (dim as int) == k + 1) by (nonlinear_arith)
                    requires
                        dim > 0,
                        k * dim < n,
                        n <= k * dim + dim,
                ;
            }
        }
        let mut row: Vec<u32> = Vec::new();
        let mut j: usize = at;
        while j < end
            invariant
                at <= j <= end <= n,
                n == flat@.len(),
                row@ == flat@.subrange(at as int, j as int),
            decreases end - j,
        {
            row.push(flat[j]);
            assert(flat@.subrange(at as int, j + 1) =~= flat@.subrange(at as int, j as int).push(
                flat@[j as int],
            ));
            j += 1;
        }
        vectors.push(row);
        at = end;
    }
    assert(vectors_view(vectors@) =~= rows_of(flat@, dim as int));
    (sequential_ids(count), vectors)
}

/// Every component of an array is in the row and at the place where it belongs: `dim` components make a row.
pub proof fn components_are_read_in_their_rows(flat: Seq<u32>, dim: int, row: int, at: int)
    requires
        0 < dim,
        0 <= row,
        0 <= at < dim,
        row * dim + at < flat.len(),
    ensures
        row < rows_of(flat, dim).len(),
        at < rows_of(flat, dim)[row].len() <= dim,
        rows_of(flat, dim)[row][at] == flat[row * dim + at],
{
    let n = flat.len() as int;
    let count = (n + dim - 1) / dim;
    vstd::arithmetic::div_mod::lemma_fundamental_div_mod(n + dim - 1, dim);
    vstd::arithmetic::div_mod::lemma_mod_bound(n + dim - 1, dim);
    assert(row < count) by (nonlinear_arith)
        requires
            n + dim - 1 == dim * count + (n + dim - 1) % dim,
            0 <= (n + dim - 1) % dim < dim,
            0 <= at < dim,
            0 < dim,
            row * dim + at < n,
    ;
    assert((row + 1) * dim == row * dim + dim) by (nonlinear_arith);
    assert(row * dim >= 0) by (nonlinear_arith)
        requires
            0 <= row,
            0 < dim,
    ;
}

/// An array of whole rows is read as that many rows of full length.
pub proof fn whole_rows_are_read_whole(flat: Seq<u32>, dim: int, count: int, row: int)
    requires
        0 < dim,
        0 <= row < count,
        flat.len() == count * dim,
    ensures
        rows_of(flat, dim).len() == count,
        rows_of(flat, dim)[row].len() == dim,
{
    let n = flat.len() as int;
    let read = (n + dim - 1) / dim;
    vstd::arithmetic::div_mod::lemma_fundamental_div_mod(n + dim - 1, dim);
    vstd::arithmetic::div_mod::lemma_mod_bound(n + dim - 1, dim);
    assert(read == count) by (nonlinear_arith)
        requires
            n == count * dim,
            n + dim - 1 == dim * read + (n + dim - 1) % dim,
            0 <= (n + dim - 1) % dim < dim,
            0 < dim,
    ;
    assert((row + 1) * dim <= count * dim) by (nonlinear_arith)
        requires
            row + 1 <= count,
            0 < dim,
    ;
    assert((row + 1) * dim == row * dim + dim) by (nonlinear_arith);
    assert(row * dim >= 0) by (nonlinear_arith)
        requires
            0 <= row,
            0 < dim,
    ;
}

} // verus!
