//! Sparse matrices and ground truth.
//!
//! A sparse matrix is stored in compressed rows, all numbers little-endian:
//!
//! ```text
//! [ n_row: i64 ][ n_col: i64 ][ n_non_zero: i64 ]
//! [ index_pointer: i64 × (n_row + 1) ]
//! [ columns: i32 × n_non_zero ]
//! [ values:  f32 × n_non_zero ]
//! ```
//!
//! Row `i` has the columns and values from `index_pointer[i]` to `index_pointer[i + 1]`. Values are
//! held as the bit patterns of single-precision numbers.
//!
//! Ground truth is stored as the number of queries, the number of neighbours of each, and then the
//! identifiers and scores of the neighbours, query by query:
//!
//! ```text
//! [ n: u32 ][ d: u32 ]
//! [ ids:    i32 × (n × d) ]
//! [ scores: f32 × (n × d) ]
//! ```
use vstd::prelude::*;

use crate::bytes::{self, get_u32_le, get_u32s_le, push_u32_le, push_u32s_le, push_u64_le};
use crate::text::{self, decimal_text, signed_decimal_text};

verus! {

/// A sparse vector: dimensions, and the bit patterns of the values in them.
#[derive(Debug, PartialEq, Eq)]
pub struct SparseVector {
    pub indices: Vec<u32>,
    pub values: Vec<u32>,
}

/// What a [`SparseVector`] is.
#[verifier::ext_equal]
pub struct SparseView {
    pub indices: Seq<u32>,
    pub values: Seq<u32>,
}

impl View for SparseVector {
    type V = SparseView;

    open spec fn view(&self) -> SparseView {
        SparseView { indices: self.indices@, values: self.values@ }
    }
}

/// The views of the rows of a matrix.
pub open spec fn rows_view(rows: Seq<SparseVector>) -> Seq<SparseView> {
    Seq::new(rows.len(), |i: int| rows[i]@)
}

/// What is said of a file that ends before what it should hold.
pub open spec fn short_read() -> Seq<char> {
    "failed to fill whole buffer"@
}

/// What is wrong with a block of `count` numbers of `width` bytes that a file of `len` bytes should
/// hold from `at` on: its size is no number, or more than the file, or it does not end in the file.
pub open spec fn block_error(
    overflow: Seq<char>,
    claims: Seq<char>,
    bytes_but: Seq<char>,
    count: int,
    width: int,
    at: int,
    len: int,
) -> Option<Seq<char>> {
    if count * width > usize::MAX {
        Some(overflow)
    } else if count * width > len {
        Some(
            claims + text::decimal((count * width) as nat) + bytes_but + text::decimal(len as nat)
                + " bytes"@,
        )
    } else if at + count * width > len {
        Some(short_read())
    } else {
        None
    }
}

/// Checks that a file of `len` bytes holds a block of `count` numbers of `width` bytes from `at` on.
pub fn check_block(
    overflow: &str,
    claims: &str,
    bytes_but: &str,
    count: u64,
    width: u64,
    at: usize,
    len: usize,
) -> (r: Result<usize, String>)
    requires
        0 < width <= 8,
        at <= len,
    ensures
        match block_error(
            overflow@,
            claims@,
            bytes_but@,
            count as int,
            width as int,
            at as int,
            len as int,
        ) {
            Some(e) => r matches Err(m) && m@ == e,
            None => r matches Ok(size) && size == count * width && at + size <= len,
        },
{
    assert(count * width <= u64::MAX * 8) by (nonlinear_arith)
        requires
            0 < width <= 8,
            0 <= count <= u64::MAX,
    ;
    assert(0 <= count * width) by (nonlinear_arith)
        requires
            0 < width,
            0 <= count,
    ;
    let size: u128 = (count as u128) * (width as u128);
    if size > usize::MAX as u128 {
        return Err(overflow.to_owned());
    }
    if size > len as u128 {
        let mut m: String = claims.to_owned();
        m.append(decimal_text(size as u64).as_str());
        m.append(bytes_but);
        m.append(decimal_text(len as u64).as_str());
        m.append(" bytes");
        return Err(m);
    }
    if size as usize > len - at {
        return Err("failed to fill whole buffer".to_owned());
    }
    Ok(size as usize)
}

/// The signed number with the bit pattern of `v`.
pub open spec fn signed(v: u64) -> i64 {
    v as i64
}

/// The three numbers of the header of a matrix.
pub open spec fn header(data: Seq<u8>) -> (i64, i64, i64) {
    (
        signed(bytes::u64_at(data, 0)),
        signed(bytes::u64_at(data, 8)),
        signed(bytes::u64_at(data, 16)),
    )
}

/// What is wrong with a block of signed numbers of a matrix.
pub open spec fn i64_block_error(count: int, at: int, len: int) -> Option<Seq<char>> {
    block_error(
        "CSR size overflow (i64 count too large)"@,
        "CSR claims "@,
        " bytes but file is only "@,
        count,
        8,
        at,
        len,
    )
}

/// What is wrong with a block of columns or values of a matrix.
pub open spec fn u32_block_error(count: int, at: int, len: int) -> Option<Seq<char>> {
    block_error(
        "CSR nnz size overflow"@,
        "CSR claims "@,
        " bytes but file is only "@,
        count,
        4,
        at,
        len,
    )
}

/// The offset where row `i` begins, and where the row before it ends.
pub open spec fn pointer(data: Seq<u8>, i: int) -> i64 {
    signed(bytes::u64_at(data, 24 + 8 * i))
}

/// What is wrong with the pointers of the first `n` rows: the first of them that begins or ends below
/// zero, ends before it begins, or ends behind the last value.
pub open spec fn pointers_error(data: Seq<u8>, path: Seq<char>, nnz: int, n: int) -> Option<
    Seq<char>,
>
    decreases n,
{
    if n <= 0 {
        None
    } else if pointers_error(data, path, nnz, n - 1) is Some {
        pointers_error(data, path, nnz, n - 1)
    } else if pointer(data, n - 1) < 0 || pointer(data, n) < 0 {
        Some("CSR index_pointer has negative offset in "@ + path)
    } else if pointer(data, n - 1) > pointer(data, n) {
        Some("CSR index_pointer not monotonic in "@ + path)
    } else if pointer(data, n) > nnz {
        Some(
            "CSR index_pointer offset "@ + text::signed_decimal(pointer(data, n) as int)
                + " exceeds nnz "@ + text::decimal(nnz as nat) + " in "@ + path,
        )
    } else {
        None
    }
}

/// Where the columns of a matrix of `n_row` rows begin.
pub open spec fn columns_at(n_row: int) -> int {
    24 + 8 * (n_row + 1)
}

/// What is wrong with a file that should hold a matrix.
pub open spec fn csr_error(data: Seq<u8>, path: Seq<char>) -> Option<Seq<char>> {
    let len = data.len() as int;
    let (n_row, n_col, nnz) = header(data);
    if i64_block_error(3, 0, len) is Some {
        i64_block_error(3, 0, len)
    } else if n_row < 0 || n_col < 0 || nnz < 0 {
        Some("invalid CSR header in "@ + path)
    } else if i64_block_error(n_row + 1, 24, len) is Some {
        i64_block_error(n_row + 1, 24, len)
    } else if pointer(data, n_row as int) != nnz {
        Some("CSR index_pointer/nnz mismatch in "@ + path)
    } else if pointers_error(data, path, nnz as int, n_row as int) is Some {
        pointers_error(data, path, nnz as int, n_row as int)
    } else if u32_block_error(nnz as int, columns_at(n_row as int), len) is Some {
        u32_block_error(nnz as int, columns_at(n_row as int), len)
    } else {
        u32_block_error(nnz as int, columns_at(n_row as int) + 4 * nnz, len)
    }
}

/// Row `i` of the matrix that a file holds.
pub open spec fn csr_row(data: Seq<u8>, i: int) -> SparseView {
    let (n_row, n_col, nnz) = header(data);
    let from = pointer(data, i) as int;
    let to = pointer(data, i + 1) as int;
    let at = columns_at(n_row as int);
    SparseView {
        indices: bytes::u32s_at(data, at, nnz as int).subrange(from, to),
        values: bytes::u32s_at(data, at + 4 * nnz, nnz as int).subrange(from, to),
    }
}

/// The rows of the matrix that a file holds.
pub open spec fn csr_rows(data: Seq<u8>) -> Seq<SparseView> {
    Seq::new(header(data).0 as nat, |i: int| csr_row(data, i))
}

/// The number of rows that the header of a matrix declares. A header that is cut off or declares a
/// negative number is an error.
pub fn csr_row_count(path: &str, data: &[u8]) -> (r: Result<u64, String>)
    ensures
        data@.len() < 24 ==> (r matches Err(e) && e@ == path@ + ": not a readable CSR file ("@
            + text::decimal(data@.len()) + " bytes, header needs 24)"@),
        data@.len() >= 24 && header(data@).0 < 0 ==> (r matches Err(e) && e@ == path@
            + ": invalid CSR header (n_row "@ + text::signed_decimal(header(data@).0 as int)
            + " is negative)"@),
        data@.len() >= 24 && header(data@).0 >= 0 ==> (r matches Ok(n) && n == header(data@).0),
{
    if data.len() < 24 {
        let mut e: String = path.to_owned();
        e.append(": not a readable CSR file (");
        e.append(decimal_text(data.len() as u64).as_str());
        e.append(" bytes, header needs 24)");
        return Err(e);
    }
    let n_row: i64 = #[verifier::truncate]
    (bytes::get_u64_le(data, 0) as i64);
    if n_row < 0 {
        let mut e: String = path.to_owned();
        e.append(": invalid CSR header (n_row ");
        e.append(signed_decimal_text(n_row).as_str());
        e.append(" is negative)");
        return Err(e);
    }
    Ok(n_row as u64)
}

/// An error among the first pointers is the error of all.
proof fn lemma_pointers_error_prefix(data: Seq<u8>, path: Seq<char>, nnz: int, n: int, all: int)
    requires
        0 <= n <= all,
        pointers_error(data, path, nnz, n) is Some,
    ensures
        pointers_error(data, path, nnz, all) == pointers_error(data, path, nnz, n),
    decreases all - n,
{
    if n < all {
        lemma_pointers_error_prefix(data, path, nnz, n, all - 1);
    }
}

/// Where no pointer is wrong, each row begins and ends inside the values.
proof fn lemma_pointers_in_order(data: Seq<u8>, path: Seq<char>, nnz: int, n: int, i: int)
    requires
        pointers_error(data, path, nnz, n) is None,
        0 <= i < n,
    ensures
        0 <= pointer(data, i) <= pointer(data, i + 1) <= nnz,
    decreases n,
{
    if i < n - 1 {
        lemma_pointers_in_order(data, path, nnz, n - 1, i);
    }
}

/// Checks the pointers of a matrix.
fn check_pointers(data: &[u8], path: &str, nnz: u64, n_row: usize) -> (r: Result<(), String>)
    requires
        24 + 8 * (n_row + 1) <= data@.len(),
        nnz <= i64::MAX,
    ensures
        match pointers_error(data@, path@, nnz as int, n_row as int) {
            Some(e) => r matches Err(m) && m@ == e,
            None => r is Ok,
        },
{
    let len: usize = data.len();
    let mut i: usize = 0;
    while i < n_row
        invariant
            i <= n_row,
            len == data@.len(),
            24 + 8 * (n_row + 1) <= len,
            nnz <= i64::MAX,
            pointers_error(data@, path@, nnz as int, i as int) is None,
        decreases n_row - i,
    {
        let prev: i64 = #[verifier::truncate]
        (bytes::get_u64_le(data, 24 + 8 * i) as i64);
        let next: i64 = #[verifier::truncate]
        (bytes::get_u64_le(data, 24 + 8 * (i + 1)) as i64);
        let mut problem: Option<String> = None;
        if prev < 0 || next < 0 {
            let mut m: String = "CSR index_pointer has negative offset in ".to_owned();
            m.append(path);
            problem = Some(m);
        } else if prev > next {
            let mut m: String = "CSR index_pointer not monotonic in ".to_owned();
            m.append(path);
            problem = Some(m);
        } else if next as u64 > nnz {
            let mut m: String = "CSR index_pointer offset ".to_owned();
            m.append(signed_decimal_text(next).as_str());
            m.append(" exceeds nnz ");
            m.append(decimal_text(nnz).as_str());
            m.append(" in ");
            m.append(path);
            problem = Some(m);
        }
        if let Some(m) = problem {
            proof {
                lemma_pointers_error_prefix(
                    data@,
                    path@,
                    nnz as int,
                    i + 1,
                    n_row as int,
                );
            }
            return Err(m);
        }
        i += 1;
    }
    Ok(())
}

/// A copy of `values[from..to]`.
fn slice_of(values: &Vec<u32>, from: usize, to: usize) -> (r: Vec<u32>)
    requires
        from <= to <= values@.len(),
    ensures
        r@ == values@.subrange(from as int, to as int),
{
    let mut r: Vec<u32> = Vec::new();
    let mut i: usize = from;
    while i < to
        invariant
            from <= i <= to <= values@.len(),
            r@ == values@.subrange(from as int, i as int),
        decreases to - i,
    {
        r.push(values[i]);
        assert(r@ =~= values@.subrange(from as int, i + 1));
        i += 1;
    }
    r
}

/// The rows of a matrix whose pointers and blocks have been checked.
fn collect_rows(data: &[u8], n_row: usize, nnz: usize) -> (rows: Vec<SparseVector>)
    requires
        header(data@).0 == n_row,
        header(data@).2 == nnz,
        columns_at(n_row as int) + 8 * nnz <= data@.len(),
        forall|i: int|
            0 <= i < n_row ==> 0 <= #[trigger] pointer(data@, i) <= pointer(data@, i + 1) <= nnz,
    ensures
        rows_view(rows@) == csr_rows(data@),
{
    let len: usize = data.len();
    let at: usize = 24 + 8 * (n_row + 1);
    let columns: Vec<u32> = get_u32s_le(data, at, nnz);
    let values: Vec<u32> = get_u32s_le(data, at + 4 * nnz, nnz);
    let mut rows: Vec<SparseVector> = Vec::new();
    let mut i: usize = 0;
    while i < n_row
        invariant
            i <= n_row,
            len == data@.len(),
            header(data@).0 == n_row,
            header(data@).2 == nnz,
            at == columns_at(n_row as int),
            columns_at(n_row as int) + 8 * nnz <= len,
            columns@ == bytes::u32s_at(data@, at as int, nnz as int),
            values@ == bytes::u32s_at(data@, at + 4 * nnz, nnz as int),
            rows@.len() == i,
            forall|j: int| 0 <= j < i ==> (#[trigger] rows@[j])@ == csr_row(data@, j),
            forall|j: int|
                0 <= j < n_row ==> 0 <= #[trigger] pointer(data@, j) <= pointer(data@, j + 1)
                    <= nnz,
        decreases n_row - i,
    {
        let start: i64 = #[verifier::truncate]
        (bytes::get_u64_le(data, 24 + 8 * i) as i64);
        let end: i64 = #[verifier::truncate]
        (bytes::get_u64_le(data, 24 + 8 * (i + 1)) as i64);
        assert(start == pointer(data@, i as int));
        assert(end == pointer(data@, i + 1));
        let row: SparseVector = SparseVector {
            indices: slice_of(&columns, start as usize, end as usize),
            values: slice_of(&values, start as usize, end as usize),
        };
        assert(row@ =~= csr_row(data@, i as int));
        rows.push(row);
        i += 1;
    }
    assert(rows_view(rows@) =~= csr_rows(data@));
    rows
}

/// Reads the matrix that a file holds. Every count is held against the length of the file before
/// anything of that size is made, and every pointer is checked before it is used.
pub fn read_sparse_matrix(path: &str, data: &[u8]) -> (r: Result<Vec<SparseVector>, String>)
    ensures
        match csr_error(data@, path@) {
            Some(e) => r matches Err(m) && m@ == e,
            None => r matches Ok(rows) && rows_view(rows@) == csr_rows(data@),
        },
{
    let len: usize = data.len();
    match check_block(
        "CSR size overflow (i64 count too large)",
        "CSR claims ",
        " bytes but file is only ",
        3,
        8,
        0,
        len,
    ) {
        Ok(_) => {},
        Err(e) => return Err(e),
    }
    let n_row: i64 = #[verifier::truncate]
    (bytes::get_u64_le(data, 0) as i64);
    let n_col: i64 = #[verifier::truncate]
    (bytes::get_u64_le(data, 8) as i64);
    let nnz: i64 = #[verifier::truncate]
    (bytes::get_u64_le(data, 16) as i64);
    if n_row < 0 || n_col < 0 || nnz < 0 {
        let mut e: String = "invalid CSR header in ".to_owned();
        e.append(path);
        return Err(e);
    }
    match check_block(
        "CSR size overflow (i64 count too large)",
        "CSR claims ",
        " bytes but file is only ",
        n_row as u64 + 1,
        8,
        24,
        len,
    ) {
        Ok(_) => {},
        Err(e) => return Err(e),
    }
    let rows: usize = n_row as usize;
    let last: i64 = #[verifier::truncate]
    (bytes::get_u64_le(data, 24 + 8 * rows) as i64);
    if last != nnz {
        let mut e: String = "CSR index_pointer/nnz mismatch in ".to_owned();
        e.append(path);
        return Err(e);
    }
    match check_pointers(data, path, nnz as u64, rows) {
        Ok(_) => {},
        Err(e) => return Err(e),
    }
    let at: usize = 24 + 8 * (rows + 1);
    match check_block(
        "CSR nnz size overflow",
        "CSR claims ",
        " bytes but file is only ",
        nnz as u64,
        4,
        at,
        len,
    ) {
        Ok(_) => {},
        Err(e) => return Err(e),
    }
    match check_block(
        "CSR nnz size overflow",
        "CSR claims ",
        " bytes but file is only ",
        nnz as u64,
        4,
        at + 4 * (nnz as usize),
        len,
    ) {
        Ok(_) => {},
        Err(e) => return Err(e),
    }
    proof {
        assert forall|i: int| 0 <= i < rows implies 0 <= #[trigger] pointer(data@, i) <= pointer(
            data@,
            i + 1,
        ) <= nnz by {
            lemma_pointers_in_order(data@, path@, nnz as int, rows as int, i);
        }
    }
    Ok(collect_rows(data, rows, nnz as usize))
}

/// The dimensions of all rows, one row behind the other.
pub open spec fn all_indices(rows: Seq<SparseView>) -> Seq<u32>
    decreases rows.len(),
{
    if rows.len() == 0 {
        Seq::empty()
    } else {
        all_indices(rows.drop_last()) + rows.last().indices
    }
}

/// The values of all rows, one row behind the other.
pub open spec fn all_values(rows: Seq<SparseView>) -> Seq<u32>
    decreases rows.len(),
{
    if rows.len() == 0 {
        Seq::empty()
    } else {
        all_values(rows.drop_last()) + rows.last().values
    }
}

/// The larger of two numbers.
pub open spec fn larger(a: int, b: int) -> int {
    if a < b {
        b
    } else {
        a
    }
}

/// One more than the largest of the dimensions.
pub open spec fn width_of(indices: Seq<u32>) -> int
    decreases indices.len(),
{
    if indices.len() == 0 {
        0
    } else {
        larger(width_of(indices.drop_last()), indices.last() + 1)
    }
}

/// Where each row begins among all dimensions, and where the last one ends.
pub open spec fn row_starts(rows: Seq<SparseView>) -> Seq<u64> {
    Seq::new(rows.len() + 1, |i: int| all_indices(rows.take(i)).len() as u64)
}

/// The bytes of the file that holds the rows.
pub open spec fn csr_bytes(rows: Seq<SparseView>) -> Seq<u8> {
    bytes::u64_le(rows.len() as u64) + bytes::u64_le(width_of(all_indices(rows)) as u64)
        + bytes::u64_le(all_indices(rows).len() as u64) + bytes::u64s_le(row_starts(rows))
        + bytes::u32s_le(all_indices(rows)) + bytes::u32s_le(all_values(rows))
}

/// The dimensions of the first rows stand in front of those of all.
proof fn lemma_all_indices_at(rows: Seq<SparseView>, i: int)
    requires
        0 <= i < rows.len(),
    ensures
        all_indices(rows.take(i)).len() + rows[i].indices.len() == all_indices(
            rows.take(i + 1),
        ).len(),
        all_indices(rows.take(i + 1)).len() <= all_indices(rows).len(),
        all_indices(rows).subrange(
            all_indices(rows.take(i)).len() as int,
            all_indices(rows.take(i + 1)).len() as int,
        ) == rows[i].indices,
    decreases rows.len(),
{
    assert(rows.take(i + 1).drop_last() =~= rows.take(i));
    let from = all_indices(rows.take(i)).len() as int;
    let to = all_indices(rows.take(i + 1)).len() as int;
    if i == rows.len() - 1 {
        assert(rows.take(i + 1) =~= rows);
        assert(all_indices(rows).subrange(from, to) =~= rows[i].indices);
    } else {
        let earlier = rows.drop_last();
        lemma_all_indices_at(earlier, i);
        assert(earlier.take(i) =~= rows.take(i));
        assert(earlier.take(i + 1) =~= rows.take(i + 1));
        assert(all_indices(rows).subrange(from, to) =~= all_indices(earlier).subrange(from, to));
    }
}

/// The values of rows that have one for each dimension are placed as their dimensions are.
proof fn lemma_all_values_at(rows: Seq<SparseView>, i: int)
    requires
        0 <= i < rows.len(),
        forall|j: int|
            0 <= j < rows.len() ==> (#[trigger] rows[j]).indices.len() == rows[j].values.len(),
    ensures
        all_values(rows).len() == all_indices(rows).len(),
        all_values(rows).subrange(
            all_indices(rows.take(i)).len() as int,
            all_indices(rows.take(i + 1)).len() as int,
        ) == rows[i].values,
    decreases rows.len(),
{
    lemma_all_indices_at(rows, i);
    lemma_all_lens(rows);
    lemma_all_lens(rows.drop_last());
    assert(rows.take(i + 1).drop_last() =~= rows.take(i));
    let from = all_indices(rows.take(i)).len() as int;
    let to = all_indices(rows.take(i + 1)).len() as int;
    if i == rows.len() - 1 {
        assert(rows.take(i + 1) =~= rows);
        assert(all_values(rows).subrange(from, to) =~= rows[i].values);
    } else {
        let earlier = rows.drop_last();
        lemma_all_values_at(earlier, i);
        lemma_all_indices_at(earlier, i);
        assert(earlier.take(i) =~= rows.take(i));
        assert(earlier.take(i + 1) =~= rows.take(i + 1));
        assert(all_values(rows).subrange(from, to) =~= all_values(earlier).subrange(from, to));
    }
}

/// Rows that have one value for each dimension have as many values as dimensions.
proof fn lemma_all_lens(rows: Seq<SparseView>)
    requires
        forall|j: int|
            0 <= j < rows.len() ==> (#[trigger] rows[j]).indices.len() == rows[j].values.len(),
    ensures
        all_values(rows).len() == all_indices(rows).len(),
    decreases rows.len(),
{
    if rows.len() > 0 {
        lemma_all_lens(rows.drop_last());
    }
}

/// The width of a matrix fits its header.
proof fn lemma_width_bound(indices: Seq<u32>)
    ensures
        0 <= width_of(indices) <= 0x1_0000_0000,
    decreases indices.len(),
{
    if indices.len() > 0 {
        lemma_width_bound(indices.drop_last());
    }
}

/// The pointers of well placed rows are in order.
proof fn lemma_pointers_fine(data: Seq<u8>, path: Seq<char>, rows: Seq<SparseView>, n: int)
    requires
        0 <= n <= rows.len(),
        all_indices(rows).len() <= i64::MAX,
        forall|i: int|
            0 <= i <= rows.len() ==> #[trigger] pointer(data, i) == all_indices(
                rows.take(i),
            ).len(),
    ensures
        pointers_error(data, path, all_indices(rows).len() as int, n) is None,
    decreases n,
{
    if n > 0 {
        lemma_pointers_fine(data, path, rows, n - 1);
        lemma_all_indices_at(rows, n - 1);
        assert(pointer(data, n - 1) == all_indices(rows.take(n - 1)).len());
        assert(pointer(data, n) == all_indices(rows.take(n)).len());
    }
}

/// Where the parts of a concatenation stand.
proof fn lemma_parts(
    a: Seq<u8>,
    b: Seq<u8>,
    c: Seq<u8>,
    p: Seq<u8>,
    q: Seq<u8>,
    v: Seq<u8>,
    s: Seq<u8>,
)
    requires
        s == a + b + c + p + q + v,
        a.len() == 8,
        b.len() == 8,
        c.len() == 8,
    ensures
        s.len() == 24 + p.len() + q.len() + v.len(),
        s.subrange(0, 8) == a,
        s.subrange(8, 16) == b,
        s.subrange(16, 24) == c,
        s.subrange(24, 24 + p.len() as int) == p,
        s.subrange(24 + p.len() as int, 24 + p.len() + q.len() as int) == q,
        s.subrange(24 + p.len() + q.len() as int, s.len() as int) == v,
{
    assert(s.subrange(0, 8) =~= a);
    assert(s.subrange(8, 16) =~= b);
    assert(s.subrange(16, 24) =~= c);
    assert(s.subrange(24, 24 + p.len() as int) =~= p);
    assert(s.subrange(24 + p.len() as int, 24 + p.len() + q.len() as int) =~= q);
    assert(s.subrange(24 + p.len() + q.len() as int, s.len() as int) =~= v);
}

/// What stands where in the bytes of a matrix.
proof fn lemma_matrix_layout(rows: Seq<SparseView>)
    requires
        forall|j: int|
            0 <= j < rows.len() ==> (#[trigger] rows[j]).indices.len() == rows[j].values.len(),
        csr_bytes(rows).len() <= usize::MAX,
    ensures
        ({
            let data = csr_bytes(rows);
            let n = rows.len() as int;
            let nnz = all_indices(rows).len() as int;
            let at = columns_at(n);
            &&& data.len() == at + 8 * nnz
            &&& header(data) == (n as i64, width_of(all_indices(rows)) as i64, nnz as i64)
            &&& 0 <= width_of(all_indices(rows)) <= 0x1_0000_0000
            &&& bytes::u64s_at(data, 24, n + 1) == row_starts(rows)
            &&& bytes::u32s_at(data, at, nnz) == all_indices(rows)
            &&& bytes::u32s_at(data, at + 4 * nnz, nnz) == all_values(rows)
        }),
{
    let data = csr_bytes(rows);
    let indices = all_indices(rows);
    let values = all_values(rows);
    let starts = row_starts(rows);
    let nnz = indices.len() as int;
    let n = rows.len() as int;
    let at = columns_at(n);
    lemma_all_lens(rows);
    lemma_width_bound(indices);
    bytes::lemma_u64s_le_len(starts);
    bytes::lemma_u32s_le_len(indices);
    bytes::lemma_u32s_le_len(values);
    lemma_parts(
        bytes::u64_le(rows.len() as u64),
        bytes::u64_le(width_of(indices) as u64),
        bytes::u64_le(indices.len() as u64),
        bytes::u64s_le(starts),
        bytes::u32s_le(indices),
        bytes::u32s_le(values),
        data,
    );
    bytes::lemma_u64_reads_back(rows.len() as u64, data, 0);
    bytes::lemma_u64_reads_back(width_of(indices) as u64, data, 8);
    bytes::lemma_u64_reads_back(indices.len() as u64, data, 16);
    bytes::lemma_u64s_read_back(starts, data, 24);
    bytes::lemma_u32s_read_back(indices, data, at);
    bytes::lemma_u32s_read_back(values, data, at + 4 * nnz);
}

/// Bytes that are laid out as a matrix are read as its rows.
proof fn lemma_layout_reads(data: Seq<u8>, path: Seq<char>, rows: Seq<SparseView>, width: int)
    requires
        forall|j: int|
            0 <= j < rows.len() ==> (#[trigger] rows[j]).indices.len() == rows[j].values.len(),
        data.len() <= usize::MAX,
        data.len() == columns_at(rows.len() as int) + 8 * all_indices(rows).len(),
        header(data) == (
            rows.len() as i64,
            width as i64,
            all_indices(rows).len() as i64,
        ),
        0 <= width <= 0x1_0000_0000,
        bytes::u64s_at(data, 24, rows.len() as int + 1) == row_starts(rows),
        bytes::u32s_at(data, columns_at(rows.len() as int), all_indices(rows).len() as int)
            == all_indices(rows),
        bytes::u32s_at(
            data,
            columns_at(rows.len() as int) + 4 * all_indices(rows).len(),
            all_indices(rows).len() as int,
        ) == all_values(rows),
    ensures
        csr_error(data, path) is None,
        csr_rows(data) == rows,
        header(data).0 == rows.len(),
{
    let starts = row_starts(rows);
    let n = rows.len() as int;
    let nnz = all_indices(rows).len() as int;
    assert forall|i: int| 0 <= i <= n implies #[trigger] pointer(data, i) == all_indices(
        rows.take(i),
    ).len() by {
        assert(bytes::u64s_at(data, 24, n + 1)[i] == starts[i]);
        if i < n {
            lemma_all_indices_at(rows, i);
        } else {
            assert(rows.take(i) =~= rows);
        }
    }
    assert(rows.take(n) =~= rows);
    lemma_pointers_fine(data, path, rows, n);
    assert forall|i: int| 0 <= i < n implies csr_row(data, i) == #[trigger] rows[i] by {
        lemma_all_indices_at(rows, i);
        lemma_all_values_at(rows, i);
        assert(pointer(data, i) == all_indices(rows.take(i)).len());
        assert(pointer(data, i + 1) == all_indices(rows.take(i + 1)).len());
        assert(csr_row(data, i) =~= rows[i]);
    }
    assert(csr_rows(data) =~= rows);
}

/// A matrix that is written reads back as its rows, whatever the file is called.
pub proof fn matrices_read_back(rows: Seq<SparseView>, path: Seq<char>)
    requires
        forall|j: int|
            0 <= j < rows.len() ==> (#[trigger] rows[j]).indices.len() == rows[j].values.len(),
        csr_bytes(rows).len() <= usize::MAX,
    ensures
        csr_error(csr_bytes(rows), path) is None,
        csr_rows(csr_bytes(rows)) == rows,
        header(csr_bytes(rows)).0 == rows.len(),
{
    lemma_matrix_layout(rows);
    lemma_layout_reads(csr_bytes(rows), path, rows, width_of(all_indices(rows)));
}

/// Where a matrix can be read, its header declares as many rows as are read.
pub proof fn row_counts_agree(data: Seq<u8>, path: Seq<char>)
    requires
        csr_error(data, path) is None,
        data.len() <= usize::MAX,
    ensures
        data.len() >= 24,
        header(data).0 == csr_rows(data).len(),
{
}

/// One more than the largest dimension of the rows.
fn matrix_width(rows: &[SparseVector]) -> (w: u64)
    ensures
        w == width_of(all_indices(rows_view(rows@))),
{
    let ghost views = rows_view(rows@);
    let mut w: u64 = 0;
    let mut i: usize = 0;
    assert(all_indices(views.take(0)) =~= Seq::empty());
    while i < rows.len()
        invariant
            i <= rows@.len(),
            views == rows_view(rows@),
            w == width_of(all_indices(views.take(i as int))),
            w <= 0x1_0000_0000,
        decreases rows@.len() - i,
    {
        let row: &Vec<u32> = &rows[i].indices;
        let ghost sofar = all_indices(views.take(i as int));
        let mut j: usize = 0;
        assert(sofar + row@.take(0) =~= sofar);
        while j < row.len()
            invariant
                j <= row@.len(),
                w == width_of(sofar + row@.take(j as int)),
                w <= 0x1_0000_0000,
            decreases row@.len() - j,
        {
            assert((sofar + row@.take(j + 1)).drop_last() =~= sofar + row@.take(j as int));
            assert((sofar + row@.take(j + 1)).last() == row@[j as int]);
            let next: u64 = row[j] as u64 + 1;
            if w < next {
                w = next;
            }
            j += 1;
        }
        assert(row@.take(j as int) =~= row@);
        assert(views.take(i + 1).drop_last() =~= views.take(i as int));
        assert(views.take(i + 1).last().indices == row@);
        i += 1;
    }
    assert(views.take(i as int) =~= views);
    w
}

/// The bytes of the file that holds the rows. They must be few enough for the counts of the header.
pub fn write_sparse_matrix(rows: &[SparseVector]) -> (data: Vec<u8>)
    requires
        all_indices(rows_view(rows@)).len() <= i64::MAX,
    ensures
        data@ == csr_bytes(rows_view(rows@)),
{
    let ghost views = rows_view(rows@);
    let ghost total = all_indices(views).len();
    let n: usize = rows.len();
    let mut starts: Vec<u8> = Vec::new();
    let mut columns: Vec<u8> = Vec::new();
    let mut values: Vec<u8> = Vec::new();
    let mut nnz: u64 = 0;
    push_u64_le(&mut starts, 0);
    let mut i: usize = 0;
    proof {
        assert(all_indices(views.take(0)) =~= Seq::empty());
        assert(all_values(views.take(0)) =~= Seq::empty());
        let one = Seq::new(1, |k: int| all_indices(views.take(k)).len() as u64);
        assert(one.drop_last() =~= Seq::empty());
        assert(one.last() == 0u64);
        assert(bytes::u64s_le(one.drop_last()) =~= Seq::empty());
        assert(bytes::u64s_le(one) =~= bytes::u64_le(0));
        assert(starts@ =~= bytes::u64_le(0));
        assert(columns@ =~= Seq::empty());
    }
    while i < n
        invariant
            i <= n,
            n == rows@.len(),
            views == rows_view(rows@),
            total == all_indices(views).len(),
            total <= i64::MAX,
            nnz == all_indices(views.take(i as int)).len(),
            starts@ == bytes::u64s_le(
                Seq::new((i + 1) as nat, |k: int| all_indices(views.take(k)).len() as u64),
            ),
            columns@ == bytes::u32s_le(all_indices(views.take(i as int))),
            values@ == bytes::u32s_le(all_values(views.take(i as int))),
        decreases n - i,
    {
        proof {
            lemma_all_indices_at(views, i as int);
            assert(views.take(i + 1).drop_last() =~= views.take(i as int));
            assert(views.take(i + 1).last() == views[i as int]);
            bytes::lemma_u32s_le_concat(
                all_indices(views.take(i as int)),
                views[i as int].indices,
            );
            bytes::lemma_u32s_le_concat(all_values(views.take(i as int)), views[i as int].values);
            let shorter = Seq::new(
                (i + 1) as nat,
                |k: int| all_indices(views.take(k)).len() as u64,
            );
            let longer = Seq::new(
                (i + 2) as nat,
                |k: int| all_indices(views.take(k)).len() as u64,
            );
            assert(longer.drop_last() =~= shorter);
        }
        nnz = nnz + rows[i].indices.len() as u64;
        push_u64_le(&mut starts, nnz);
        push_u32s_le(&mut columns, &rows[i].indices);
        push_u32s_le(&mut values, &rows[i].values);
        i += 1;
    }
    assert(views.take(i as int) =~= views);
    assert(Seq::new((i + 1) as nat, |k: int| all_indices(views.take(k)).len() as u64)
        =~= row_starts(views));
    let mut data: Vec<u8> = Vec::new();
    push_u64_le(&mut data, n as u64);
    push_u64_le(&mut data, matrix_width(rows));
    push_u64_le(&mut data, nnz);
    data.append(&mut starts);
    data.append(&mut columns);
    data.append(&mut values);
    assert(data@ =~= csr_bytes(views));
    data
}

/// The identifier with the bit pattern of `v`.
pub open spec fn id_of(v: u32) -> i64 {
    (v as i32) as i64
}

/// The bit pattern of an identifier that fits 32 bits.
pub open spec fn id_bits(id: i64) -> u32 {
    (id as i32) as u32
}

/// An identifier that fits 32 bits comes back from its bit pattern.
proof fn lemma_id_comes_back(id: i64)
    requires
        i32::MIN <= id <= i32::MAX,
    ensures
        id_of(id_bits(id)) == id,
{
    assert((((((id as i32) as u32) as i32) as i64) == id)) by (bit_vector)
        requires
            -0x8000_0000 <= id <= 0x7fff_ffff,
    ;
}

/// What is wrong with a file that should hold ground truth.
pub open spec fn gt_error(data: Seq<u8>, path: Seq<char>) -> Option<Seq<char>> {
    let n = bytes::u32_at(data, 0) as int;
    let d = bytes::u32_at(data, 4) as int;
    if data.len() < 8 {
        Some("read "@ + path + " header: "@ + short_read())
    } else if d == 0 && n > 0 {
        Some(
            "ground-truth "@ + path + " declares "@ + text::decimal(n as nat)
                + " queries but 0 neighbours each"@,
        )
    } else if n * d > usize::MAX {
        Some("ground-truth n*d overflow in "@ + path)
    } else if n * d * 8 + 8 > usize::MAX {
        Some("ground-truth size overflow in "@ + path)
    } else if n * d * 8 + 8 != data.len() {
        Some(
            "ground-truth "@ + path + " declares "@ + text::decimal(n as nat) + " queries × "@
                + text::decimal(d as nat) + " neighbours ("@ + text::decimal(
                (n * d * 8 + 8) as nat,
            ) + " bytes) but the file is "@ + text::decimal(data.len()) + " bytes"@,
        )
    } else {
        None
    }
}

/// The neighbours of each query that a file of ground truth holds.
pub open spec fn gt_rows(data: Seq<u8>) -> Seq<Seq<i64>> {
    let n = bytes::u32_at(data, 0) as int;
    let d = bytes::u32_at(data, 4) as int;
    Seq::new(n as nat, |q: int| gt_row(data, d, q))
}

/// The neighbours of query `q`, of `d` each.
pub open spec fn gt_row(data: Seq<u8>, d: int, q: int) -> Seq<i64> {
    Seq::new(d as nat, |k: int| id_of(bytes::u32_at(data, 8 + 4 * (q * d + k))))
}

/// The views of rows of identifiers.
pub open spec fn ids_view(rows: Seq<Vec<i64>>) -> Seq<Seq<i64>> {
    Seq::new(rows.len(), |i: int| rows[i]@)
}

/// Reads the neighbours of each query. The file must be exactly as long as its header says, and a
/// file with queries must have neighbours: short ground truth would pass for a worse search.
pub fn read_gt_neighbours(path: &str, data: &[u8]) -> (r: Result<Vec<Vec<i64>>, String>)
    ensures
        match gt_error(data@, path@) {
            Some(e) => r matches Err(m) && m@ == e,
            None => r matches Ok(rows) && ids_view(rows@) == gt_rows(data@),
        },
{
    let len: usize = data.len();
    if len < 8 {
        let mut e: String = "read ".to_owned();
        e.append(path);
        e.append(" header: ");
        e.append("failed to fill whole buffer");
        return Err(e);
    }
    let n: u64 = get_u32_le(data, 0) as u64;
    let d: u64 = get_u32_le(data, 4) as u64;
    if d == 0 && n > 0 {
        let mut e: String = "ground-truth ".to_owned();
        e.append(path);
        e.append(" declares ");
        e.append(decimal_text(n).as_str());
        e.append(" queries but 0 neighbours each");
        return Err(e);
    }
    assert(0 <= n * d <= 0xffff_ffff * 0xffff_ffff) by (nonlinear_arith)
        requires
            0 <= n <= 0xffff_ffff,
            0 <= d <= 0xffff_ffff,
    ;
    let count: u128 = (n as u128) * (d as u128);
    if count > usize::MAX as u128 {
        let mut e: String = "ground-truth n*d overflow in ".to_owned();
        e.append(path);
        return Err(e);
    }
    let expected: u128 = count * 8 + 8;
    if expected > usize::MAX as u128 {
        let mut e: String = "ground-truth size overflow in ".to_owned();
        e.append(path);
        return Err(e);
    }
    if expected != len as u128 {
        let mut e: String = "ground-truth ".to_owned();
        e.append(path);
        e.append(" declares ");
        e.append(decimal_text(n).as_str());
        e.append(" queries × ");
        e.append(decimal_text(d).as_str());
        e.append(" neighbours (");
        e.append(decimal_text(expected as u64).as_str());
        e.append(" bytes) but the file is ");
        e.append(decimal_text(len as u64).as_str());
        e.append(" bytes");
        return Err(e);
    }
    let mut rows: Vec<Vec<i64>> = Vec::new();
    let mut q: u64 = 0;
    let mut at: usize = 8;
    while q < n
        invariant
            q <= n <= 0xffff_ffff,
            d <= 0xffff_ffff,
            len == data@.len(),
            n * d * 8 + 8 == len,
            at == 8 + 4 * (q * d),
            rows@.len() == q,
            forall|i: int|
                0 <= i < q ==> (#[trigger] rows@[i])@ == gt_row(data@, d as int, i),
        decreases n - q,
    {
        proof {
            assert(q * d + d <= n * d) by (nonlinear_arith)
                requires
                    q < n,
                    0 <= d,
            ;
            assert((q + 1) * d == q * d + d) by (nonlinear_arith);
        }
        let mut row: Vec<i64> = Vec::new();
        let mut k: u64 = 0;
        while k < d
            invariant
                k <= d <= 0xffff_ffff,
                len == data@.len(),
                at == 8 + 4 * (q * d),
                at + 4 * d <= len,
                row@.len() == k,
                forall|j: int|
                    0 <= j < k ==> (#[trigger] row@[j]) == id_of(
                        bytes::u32_at(data@, 8 + 4 * (q * d + j)),
                    ),
            decreases d - k,
        {
            let v: u32 = get_u32_le(data, at + 4 * (k as usize));
            let id: i32 = #[verifier::truncate]
            (v as i32);
            row.push(id as i64);
            k += 1;
        }
        assert(row@ =~= gt_row(data@, d as int, q as int));
        rows.push(row);
        at = at + 4 * (d as usize);
        q += 1;
    }
    assert(ids_view(rows@) =~= gt_rows(data@));
    Ok(rows)
}

/// The identifiers of all rows, as bit patterns, one row behind the other.
pub open spec fn all_ids(rows: Seq<Seq<i64>>) -> Seq<u32>
    decreases rows.len(),
{
    if rows.len() == 0 {
        Seq::empty()
    } else {
        all_ids(rows.drop_last()) + rows.last().map_values(|id: i64| id_bits(id))
    }
}

/// The number of neighbours of the first query.
pub open spec fn gt_width(rows: Seq<Seq<i64>>) -> nat {
    if rows.len() > 0 {
        rows[0].len()
    } else {
        0
    }
}

/// Whether an identifier fits the file's field for it.
pub open spec fn fits_id(id: i64) -> bool {
    i32::MIN <= id <= i32::MAX
}

/// The first identifier of a row that does not fit.
pub open spec fn first_unfit(row: Seq<i64>) -> Option<i64>
    decreases row.len(),
{
    if row.len() == 0 {
        None
    } else if first_unfit(row.drop_last()) is Some {
        first_unfit(row.drop_last())
    } else if !fits_id(row.last()) {
        Some(row.last())
    } else {
        None
    }
}

/// The first identifier of the rows that does not fit.
pub open spec fn first_unfit_of(rows: Seq<Seq<i64>>) -> Option<i64>
    decreases rows.len(),
{
    if rows.len() == 0 {
        None
    } else if first_unfit_of(rows.drop_last()) is Some {
        first_unfit_of(rows.drop_last())
    } else {
        first_unfit(rows.last())
    }
}

/// What is wrong with rows that should be written as ground truth: not all of one length, queries
/// without neighbours, an identifier that does not fit.
pub open spec fn gt_refusal(rows: Seq<Seq<i64>>) -> Option<Seq<char>> {
    if exists|i: int| 0 <= i < rows.len() && (#[trigger] rows[i]).len() != gt_width(rows) {
        Some("ground-truth rows must all have the same length"@)
    } else if gt_width(rows) == 0 && rows.len() > 0 {
        Some(
            "cannot write ground truth for "@ + text::decimal(rows.len())
                + " queries with 0 neighbours each: the format cannot represent it (and read_gt_neighbours rejects it)"@,
        )
    } else {
        match first_unfit_of(rows) {
            Some(id) => Some(
                "ground-truth id "@ + text::signed_decimal(id as int)
                    + " does not fit in the format's int32 id field"@,
            ),
            None => None,
        }
    }
}

/// The bytes of the file that holds the rows; the scores are zero.
pub open spec fn gt_bytes(rows: Seq<Seq<i64>>) -> Seq<u8> {
    bytes::u32_le(rows.len() as u32) + bytes::u32_le(gt_width(rows) as u32) + bytes::u32s_le(
        all_ids(rows),
    ) + Seq::new(4 * all_ids(rows).len(), |i: int| 0u8)
}

/// An identifier that does not fit is the first of the whole.
proof fn lemma_first_unfit_prefix(row: Seq<i64>, n: int)
    requires
        0 <= n <= row.len(),
        first_unfit(row.take(n)) is Some,
    ensures
        first_unfit(row) == first_unfit(row.take(n)),
    decreases row.len() - n,
{
    if n < row.len() {
        assert(row.take(n + 1).drop_last() =~= row.take(n));
        lemma_first_unfit_prefix(row, n + 1);
    } else {
        assert(row.take(n) =~= row);
    }
}

/// An identifier that does not fit is the first of the whole.
proof fn lemma_first_unfit_of_prefix(rows: Seq<Seq<i64>>, n: int)
    requires
        0 <= n <= rows.len(),
        first_unfit_of(rows.take(n)) is Some,
    ensures
        first_unfit_of(rows) == first_unfit_of(rows.take(n)),
    decreases rows.len() - n,
{
    if n < rows.len() {
        assert(rows.take(n + 1).drop_last() =~= rows.take(n));
        lemma_first_unfit_of_prefix(rows, n + 1);
    } else {
        assert(rows.take(n) =~= rows);
    }
}

/// The first identifier of a row that does not fit.
fn find_unfit(row: &Vec<i64>) -> (r: Option<i64>)
    ensures
        r == first_unfit(row@),
{
    let mut k: usize = 0;
    while k < row.len()
        invariant
            k <= row@.len(),
            first_unfit(row@.take(k as int)) is None,
        decreases row@.len() - k,
    {
        assert(row@.take(k + 1).drop_last() =~= row@.take(k as int));
        if row[k] < -0x8000_0000 || row[k] > 0x7fff_ffff {
            proof {
                lemma_first_unfit_prefix(row@, k + 1);
            }
            return Some(row[k]);
        }
        k += 1;
    }
    assert(row@.take(k as int) =~= row@);
    None
}

/// Writes the bit patterns of a row of identifiers.
fn push_ids(out: &mut Vec<u8>, row: &Vec<i64>)
    requires
        first_unfit(row@) is None,
    ensures
        final(out)@ == old(out)@ + bytes::u32s_le(row@.map_values(|id: i64| id_bits(id))),
{
    let ghost before = out@;
    let ghost patterns = row@.map_values(|id: i64| id_bits(id));
    let mut k: usize = 0;
    assert(before + bytes::u32s_le(patterns.take(0)) =~= before);
    while k < row.len()
        invariant
            k <= row@.len(),
            patterns == row@.map_values(|id: i64| id_bits(id)),
            out@ == before + bytes::u32s_le(patterns.take(k as int)),
        decreases row@.len() - k,
    {
        proof {
            assert(patterns.take(k + 1).drop_last() =~= patterns.take(k as int));
            assert(patterns.take(k + 1).last() == id_bits(row@[k as int]));
        }
        let narrow: i32 = #[verifier::truncate]
        (row[k] as i32);
        let pattern: u32 = #[verifier::truncate]
        (narrow as u32);
        push_u32_le(out, pattern);
        assert(out@ =~= before + bytes::u32s_le(patterns.take(k + 1)));
        k += 1;
    }
    assert(patterns.take(k as int) =~= patterns);
}

/// The bytes of the file that holds the rows as ground truth, or what is wrong with them. Nothing is
/// written that [`read_gt_neighbours`] would refuse.
pub fn write_gt_neighbours(rows: &[Vec<i64>]) -> (r: Result<Vec<u8>, String>)
    ensures
        match gt_refusal(ids_view(rows@)) {
            Some(e) => r matches Err(m) && m@ == e,
            None => r matches Ok(data) && data@ == gt_bytes(ids_view(rows@)),
        },
{
    let ghost views = ids_view(rows@);
    let d: usize = if rows.len() > 0 {
        rows[0].len()
    } else {
        0
    };
    assert(d == gt_width(views));
    let mut i: usize = 0;
    while i < rows.len()
        invariant
            i <= rows@.len(),
            views == ids_view(rows@),
            d == gt_width(views),
            forall|j: int| 0 <= j < i ==> (#[trigger] views[j]).len() == d,
        decreases rows@.len() - i,
    {
        assert(views[i as int] == rows@[i as int]@);
        if rows[i].len() != d {
            return Err("ground-truth rows must all have the same length".to_owned());
        }
        i += 1;
    }
    if d == 0 && rows.len() > 0 {
        let mut e: String = "cannot write ground truth for ".to_owned();
        e.append(decimal_text(rows.len() as u64).as_str());
        e.append(
            " queries with 0 neighbours each: the format cannot represent it (and read_gt_neighbours rejects it)",
        );
        return Err(e);
    }
    let mut body: Vec<u8> = Vec::new();
    i = 0;
    assert(body@ =~= bytes::u32s_le(all_ids(views.take(0))));
    while i < rows.len()
        invariant
            i <= rows@.len(),
            views == ids_view(rows@),
            gt_refusal(views) == match first_unfit_of(views) {
                Some(id) => Some(
                    "ground-truth id "@ + text::signed_decimal(id as int)
                        + " does not fit in the format's int32 id field"@,
                ),
                None => None,
            },
            first_unfit_of(views.take(i as int)) is None,
            body@ == bytes::u32s_le(all_ids(views.take(i as int))),
        decreases rows@.len() - i,
    {
        proof {
            assert(views.take(i + 1).drop_last() =~= views.take(i as int));
            assert(views.take(i + 1).last() == rows@[i as int]@);
        }
        if let Some(bad) = find_unfit(&rows[i]) {
            proof {
                lemma_first_unfit_of_prefix(views, i + 1);
            }
            let mut e: String = "ground-truth id ".to_owned();
            e.append(signed_decimal_text(bad).as_str());
            e.append(" does not fit in the format's int32 id field");
            return Err(e);
        }
        proof {
            bytes::lemma_u32s_le_concat(
                all_ids(views.take(i as int)),
                rows@[i as int]@.map_values(|id: i64| id_bits(id)),
            );
        }
        push_ids(&mut body, &rows[i]);
        i += 1;
    }
    assert(views.take(i as int) =~= views);
    let size: usize = body.len();
    let mut data: Vec<u8> = Vec::new();
    push_u32_le(
        &mut data,
        #[verifier::truncate]
        (rows.len() as u32),
    );
    push_u32_le(
        &mut data,
        #[verifier::truncate]
        (d as u32),
    );
    data.append(&mut body);
    let ghost front = data@;
    proof {
        bytes::lemma_u32s_le_len(all_ids(views));
    }
    let mut k: usize = 0;
    while k < size
        invariant
            k <= size,
            data@ == front + Seq::new(k as nat, |j: int| 0u8),
        decreases size - k,
    {
        data.push(0u8);
        assert(data@ =~= front + Seq::new((k + 1) as nat, |j: int| 0u8));
        k += 1;
    }
    assert(data@ =~= gt_bytes(views));
    Ok(data)
}

/// Where rows are all `d` long, the identifiers of row `q` stand from `q * d` on.
proof fn lemma_all_ids_at(rows: Seq<Seq<i64>>, d: int, q: int, k: int)
    requires
        forall|i: int| 0 <= i < rows.len() ==> (#[trigger] rows[i]).len() == d,
        0 <= q < rows.len(),
        0 <= k < d,
    ensures
        all_ids(rows).len() == rows.len() * d,
        0 <= q * d + k < rows.len() * d,
        all_ids(rows)[q * d + k] == id_bits(rows[q][k]),
    decreases rows.len(),
{
    lemma_all_ids_len(rows, d);
    lemma_all_ids_len(rows.drop_last(), d);
    assert(q * d + k < rows.len() * d) by (nonlinear_arith)
        requires
            0 <= q < rows.len(),
            0 <= k < d,
    ;
    assert(0 <= q * d) by (nonlinear_arith)
        requires
            0 <= q,
            0 <= d,
    ;
    if q < rows.len() - 1 {
        lemma_all_ids_at(rows.drop_last(), d, q, k);
    } else {
        assert((rows.len() - 1) * d == q * d);
        assert(all_ids(rows)[q * d + k] == rows.last().map_values(|id: i64| id_bits(id))[k]);
    }
}

/// Rows that are all `d` long have `d` identifiers each.
proof fn lemma_all_ids_len(rows: Seq<Seq<i64>>, d: int)
    requires
        forall|i: int| 0 <= i < rows.len() ==> (#[trigger] rows[i]).len() == d,
    ensures
        all_ids(rows).len() == rows.len() * d,
    decreases rows.len(),
{
    if rows.len() > 0 {
        lemma_all_ids_len(rows.drop_last(), d);
        assert(rows.last().len() == d);
        assert(rows.len() * d == (rows.len() - 1) * d + d) by (nonlinear_arith);
    } else {
        assert(rows.len() * d == 0) by (nonlinear_arith)
            requires
                rows.len() == 0,
        ;
    }
}

/// Where no identifier of the rows is unfit, each fits.
proof fn lemma_all_fit(rows: Seq<Seq<i64>>, q: int, k: int)
    requires
        first_unfit_of(rows) is None,
        0 <= q < rows.len(),
        0 <= k < rows[q].len(),
    ensures
        fits_id(rows[q][k]),
    decreases rows.len(),
{
    if q < rows.len() - 1 {
        lemma_all_fit(rows.drop_last(), q, k);
    } else {
        lemma_row_fits(rows.last(), k);
    }
}

/// Where no identifier of a row is unfit, each fits.
proof fn lemma_row_fits(row: Seq<i64>, k: int)
    requires
        first_unfit(row) is None,
        0 <= k < row.len(),
    ensures
        fits_id(row[k]),
    decreases row.len(),
{
    if k < row.len() - 1 {
        lemma_row_fits(row.drop_last(), k);
    }
}

/// Ground truth that is written reads back as its rows: nothing is written that cannot be read.
pub proof fn ground_truth_reads_back(rows: Seq<Seq<i64>>, path: Seq<char>)
    requires
        gt_refusal(rows) is None,
        rows.len() <= u32::MAX,
        gt_width(rows) <= u32::MAX,
        gt_bytes(rows).len() <= usize::MAX,
    ensures
        gt_error(gt_bytes(rows), path) is None,
        gt_rows(gt_bytes(rows)) == rows,
{
    let data = gt_bytes(rows);
    let n = rows.len() as int;
    let d = gt_width(rows) as int;
    let ids = all_ids(rows);
    assert forall|i: int| 0 <= i < rows.len() implies (#[trigger] rows[i]).len() == d by {}
    lemma_all_ids_len(rows, d);
    bytes::lemma_u32s_le_len(ids);
    assert(data.subrange(0, 4) =~= bytes::u32_le(rows.len() as u32));
    assert(data.subrange(4, 8) =~= bytes::u32_le(gt_width(rows) as u32));
    bytes::lemma_u32_reads_back(rows.len() as u32, data, 0);
    bytes::lemma_u32_reads_back(gt_width(rows) as u32, data, 4);
    assert(data.subrange(8, 8 + 4 * (ids.len() as int)) =~= bytes::u32s_le(ids));
    bytes::lemma_u32s_read_back(ids, data, 8);
    assert forall|q: int| 0 <= q < n implies #[trigger] gt_rows(data)[q] == rows[q] by {
        assert forall|k: int| 0 <= k < d implies #[trigger] gt_row(data, d, q)[k]
            == rows[q][k] by {
            lemma_all_ids_at(rows, d, q, k);
            lemma_all_fit(rows, q, k);
            lemma_id_comes_back(rows[q][k]);
            assert(bytes::u32s_at(data, 8, ids.len() as int)[q * d + k] == ids[q * d + k]);
        }
        assert(gt_row(data, d, q) =~= rows[q]);
    }
    assert(gt_rows(data) =~= rows);
}

} // verus!
