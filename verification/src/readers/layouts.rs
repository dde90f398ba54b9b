//! Where things stand in the files of a dataset, byte by byte.
use vstd::prelude::*;

use crate::bytes;
use crate::readers::multivector_reader;
use crate::readers::sparse_reader;

verus! {

/// The number that four bytes from `at` on make up, the lowest first.
pub open spec fn four_bytes(data: Seq<u8>, at: int) -> int {
    data[at] + 256 * data[at + 1] + 65_536 * data[at + 2] + 16_777_216 * data[at + 3]
}

/// The number that eight bytes from `at` on make up, the lowest first.
pub open spec fn eight_bytes(data: Seq<u8>, at: int) -> int {
    four_bytes(data, at) + 4_294_967_296 * four_bytes(data, at + 4)
}

/// Numbers are read with their lowest byte first: what is read is what the bytes make up.
pub proof fn the_lowest_byte_comes_first(data: Seq<u8>, at: int)
    ensures
        bytes::u32_at(data, at) == four_bytes(data, at),
        bytes::u64_at(data, at) == eight_bytes(data, at),
{
}

/// Numbers are written with their lowest byte first: the bytes make up the number.
pub proof fn the_lowest_byte_is_written_first(v: u32)
    ensures
        bytes::u32_le(v).len() == 4,
        four_bytes(bytes::u32_le(v), 0) == v,
{
    let a = v % 0x100;
    let b = v / 0x100 % 0x100;
    let c = v / 0x1_0000 % 0x100;
    let d = v / 0x100_0000;
    assert(v == a + 0x100 * b + 0x1_0000 * c + 0x100_0000 * d);
}

/// The same of numbers of eight bytes.
pub proof fn the_lowest_byte_of_eight_is_written_first(w: u64)
    ensures
        bytes::u64_le(w).len() == 8,
        eight_bytes(bytes::u64_le(w), 0) == w,
{
    let low = bytes::u32_le((w % 0x1_0000_0000) as u32);
    let high = bytes::u32_le((w / 0x1_0000_0000) as u32);
    the_lowest_byte_is_written_first((w % 0x1_0000_0000) as u32);
    the_lowest_byte_is_written_first((w / 0x1_0000_0000) as u32);
    let written = bytes::u64_le(w);
    assert(written == low + high);
    assert(four_bytes(written, 0) == four_bytes(low, 0));
    assert(four_bytes(written, 4) == four_bytes(high, 0));
}

/// A file of several vectors for each row has the number of rows first, then the number of components, then
/// how many vectors each row has, and then the components, row by row and vector by vector.
pub proof fn multivectors_stand_row_by_row(data: Seq<u8>, i: int, t: int, c: int)
    requires
        0 <= i < multivector_reader::row_count(data),
        0 <= t < multivector_reader::token_counts(data)[i],
        0 <= c < multivector_reader::dimension(data),
    ensures
        multivector_reader::row_count(data) == four_bytes(data, 0),
        multivector_reader::dimension(data) == four_bytes(data, 4),
        multivector_reader::mvec_rows(data).len() == four_bytes(data, 0),
        multivector_reader::mvec_rows(data)[i].len() == four_bytes(data, 8 + 4 * i),
        multivector_reader::mvec_rows(data)[i][t].len() == four_bytes(data, 4),
        multivector_reader::mvec_rows(data)[i][t][c] == four_bytes(
            data,
            8 + 4 * four_bytes(data, 0) + 4 * ((multivector_reader::tokens_before(
                multivector_reader::token_counts(data),
                i,
            ) + t) * four_bytes(data, 4)) + 4 * c,
        ),
        multivector_reader::tokens_before(multivector_reader::token_counts(data), 0) == 0,
        multivector_reader::tokens_before(multivector_reader::token_counts(data), i + 1)
            == multivector_reader::tokens_before(multivector_reader::token_counts(data), i)
            + four_bytes(data, 8 + 4 * i),
{
    the_lowest_byte_comes_first(data, 0);
    the_lowest_byte_comes_first(data, 4);
    the_lowest_byte_comes_first(data, 8 + 4 * i);
    let before = multivector_reader::tokens_before(multivector_reader::token_counts(data), i);
    let dim = multivector_reader::dimension(data);
    let at = 8 + 4 * multivector_reader::row_count(data) + 4 * ((before + t) * dim);
    the_lowest_byte_comes_first(data, at + 4 * c);
    let row = multivector_reader::mvec_rows(data)[i];
    assert(row == multivector_reader::mvec_row(data, i));
    assert(row[t] == multivector_reader::token_at(data, before + t));
}

/// A sparse matrix has the numbers of rows, of columns and of values first, then where each row begins and
/// the last one ends, then the columns of all rows, and then their values, each in the order of the rows.
pub proof fn sparse_rows_stand_between_their_pointers(data: Seq<u8>, path: Seq<char>, i: int, k: int)
    requires
        sparse_reader::csr_error(data, path) is None,
        data.len() <= usize::MAX,
        0 <= i < sparse_reader::header(data).0,
        0 <= k < sparse_reader::pointer(data, i + 1) - sparse_reader::pointer(data, i),
    ensures
        ({
            let rows = eight_bytes(data, 0);
            let values = eight_bytes(data, 16);
            let from = eight_bytes(data, 24 + 8 * i);
            let to = eight_bytes(data, 32 + 8 * i);
            let row = sparse_reader::csr_rows(data)[i];
            &&& sparse_reader::csr_rows(data).len() == rows
            &&& 0 <= from <= to <= values
            &&& row.indices.len() == to - from
            &&& row.values.len() == to - from
            &&& row.indices[k] == four_bytes(data, 32 + 8 * rows + 4 * (from + k))
            &&& row.values[k] == four_bytes(data, 32 + 8 * rows + 4 * values + 4 * (from + k))
            &&& 32 + 8 * rows + 8 * values <= data.len()
        }),
{
    let (n_row, n_col, nnz) = sparse_reader::header(data);
    lemma_pointers_hold(data, path, nnz as int, n_row as int, i);
    the_lowest_byte_comes_first(data, 0);
    the_lowest_byte_comes_first(data, 16);
    the_lowest_byte_comes_first(data, 24 + 8 * i);
    the_lowest_byte_comes_first(data, 32 + 8 * i);
    assert(24 + 8 * (i + 1) == 32 + 8 * i);
    lemma_signed(bytes::u64_at(data, 0));
    lemma_signed(bytes::u64_at(data, 16));
    lemma_signed(bytes::u64_at(data, 24 + 8 * i));
    lemma_signed(bytes::u64_at(data, 32 + 8 * i));
    let from = sparse_reader::pointer(data, i) as int;
    let at = sparse_reader::columns_at(n_row as int);
    the_lowest_byte_comes_first(data, at + 4 * (from + k));
    the_lowest_byte_comes_first(data, at + 4 * nnz + 4 * (from + k));
    let row = sparse_reader::csr_rows(data)[i];
    assert(row == sparse_reader::csr_row(data, i));
}

/// A pattern that is no negative number is the number.
proof fn lemma_signed(v: u64)
    ensures
        sparse_reader::signed(v) >= 0 ==> sparse_reader::signed(v) == v,
{
    assert((v as i64) >= 0 ==> (v as i64) == v) by (bit_vector);
}

/// Where no pointer is wrong, each row begins and ends inside the values.
proof fn lemma_pointers_hold(data: Seq<u8>, path: Seq<char>, nnz: int, n: int, i: int)
    requires
        sparse_reader::pointers_error(data, path, nnz, n) is None,
        0 <= i < n,
    ensures
        0 <= sparse_reader::pointer(data, i) <= sparse_reader::pointer(data, i + 1) <= nnz,
    decreases n,
{
    if i < n - 1 {
        lemma_pointers_hold(data, path, nnz, n - 1, i);
    }
}

/// The width of a matrix is one more than the largest of its columns: every column is below it, and it is
/// none where there is no column.
pub proof fn matrices_are_as_wide_as_their_columns(indices: Seq<u32>, i: int)
    requires
        0 <= i < indices.len(),
    ensures
        indices[i] < sparse_reader::width_of(indices),
        exists|k: int|
            0 <= k < indices.len() && #[trigger] indices[k] + 1 == sparse_reader::width_of(indices),
        sparse_reader::width_of(Seq::empty()) == 0,
    decreases indices.len(),
{
    let front = indices.drop_last();
    let last = indices.len() - 1;
    assert(indices[last] == indices.last());
    if front.len() > 0 {
        matrices_are_as_wide_as_their_columns(
            front,
            if i < front.len() {
                i
            } else {
                0
            },
        );
        let k = choose|k: int|
            0 <= k < front.len() && #[trigger] front[k] + 1 == sparse_reader::width_of(front);
        assert(indices[k] == front[k]);
        if i < front.len() {
            assert(indices[i] == front[i]);
        }
    } else {
        assert(sparse_reader::width_of(front) == 0);
    }
}

/// A file of ground truth has the number of queries first, then the number of neighbours of each, then the
/// numbers of the neighbours, query by query; as many bytes again hold their scores, and nothing follows.
pub proof fn neighbours_stand_query_by_query(data: Seq<u8>, path: Seq<char>, q: int, k: int)
    requires
        sparse_reader::gt_error(data, path) is None,
        0 <= q < four_bytes(data, 0),
        0 <= k < four_bytes(data, 4),
    ensures
        ({
            let n = four_bytes(data, 0);
            let d = four_bytes(data, 4);
            let stored = four_bytes(data, 8 + 4 * (q * d + k));
            &&& data.len() == 8 + n * d * 8
            &&& sparse_reader::gt_rows(data).len() == n
            &&& sparse_reader::gt_rows(data)[q].len() == d
            &&& stored < 0x8000_0000 ==> sparse_reader::gt_rows(data)[q][k] == stored
            &&& stored >= 0x8000_0000 ==> sparse_reader::gt_rows(data)[q][k] == stored - 0x1_0000_0000
        }),
{
    the_lowest_byte_comes_first(data, 0);
    the_lowest_byte_comes_first(data, 4);
    let d = four_bytes(data, 4);
    let at = 8 + 4 * (q * d + k);
    the_lowest_byte_comes_first(data, at);
    let v = bytes::u32_at(data, at);
    assert(v < 0x8000_0000u32 ==> (v as i32) as i64 == v) by (bit_vector);
    assert(v >= 0x8000_0000u32 ==> (v as i32) as i64 == v - 0x1_0000_0000) by (bit_vector);
    assert(sparse_reader::gt_rows(data)[q] == sparse_reader::gt_row(data, d, q));
}

/// Lists of numbers are read one number behind the other.
pub proof fn lists_stand_number_by_number(data: Seq<u8>, at: int, n: int, i: int)
    requires
        0 <= i < n,
    ensures
        bytes::u32s_at(data, at, n).len() == n,
        bytes::u32s_at(data, at, n)[i] == four_bytes(data, at + 4 * i),
        bytes::u64s_at(data, at, n).len() == n,
        bytes::u64s_at(data, at, n)[i] == eight_bytes(data, at + 8 * i),
{
    the_lowest_byte_comes_first(data, at + 4 * i);
    the_lowest_byte_comes_first(data, at + 8 * i);
}

} // verus!
