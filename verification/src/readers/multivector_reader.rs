//! Rows of several vectors each: one vector for each token of a document or query.
//!
//! The file holds, all numbers little-endian:
//!
//! ```text
//! [ num_rows: u32 ][ dim: u32 ]
//! [ token_count: u32 × num_rows ]
//! [ values: f32 × (sum(token_count) × dim) ]
//! ```
//!
//! The values stand token by token, row by row. They are held as the bit patterns of single-precision
//! numbers.
use vstd::prelude::*;

use crate::bytes::{self, get_u32_le, get_u32s_le, push_u32_le, push_u32s_le};
use crate::readers::sparse_reader::{self, check_block};
use crate::text::{self, decimal_text};

verus! {

/// The vectors of one document or query.
#[derive(Debug, PartialEq, Eq)]
pub struct MultiVector {
    pub vectors: Vec<Vec<u32>>,
}

impl View for MultiVector {
    type V = Seq<Seq<u32>>;

    open spec fn view(&self) -> Seq<Seq<u32>> {
        Seq::new(self.vectors@.len(), |i: int| self.vectors@[i]@)
    }
}

/// The views of the rows of a file.
pub open spec fn rows_view(rows: Seq<MultiVector>) -> Seq<Seq<Seq<u32>>> {
    Seq::new(rows.len(), |i: int| rows[i]@)
}

/// The sum of the first `n` counts.
pub open spec fn tokens_before(counts: Seq<u32>, n: int) -> int
    decreases n,
{
    if n <= 0 {
        0
    } else {
        tokens_before(counts, n - 1) + counts[n - 1]
    }
}

/// The number of rows that a file declares.
pub open spec fn row_count(data: Seq<u8>) -> int {
    bytes::u32_at(data, 0) as int
}

/// The number of components of each vector of a file.
pub open spec fn dimension(data: Seq<u8>) -> int {
    bytes::u32_at(data, 4) as int
}

/// How many vectors each row of a file has.
pub open spec fn token_counts(data: Seq<u8>) -> Seq<u32> {
    bytes::u32s_at(data, 8, row_count(data))
}

/// How many vectors a file has.
pub open spec fn token_total(data: Seq<u8>) -> int {
    tokens_before(token_counts(data), row_count(data))
}

/// What is wrong with the block of counts of a file.
pub open spec fn counts_error(data: Seq<u8>) -> Option<Seq<char>> {
    sparse_reader::block_error(
        "multivector token-count size overflow"@,
        "multivector file claims "@,
        " token-count bytes but file is only "@,
        row_count(data),
        4,
        8,
        data.len() as int,
    )
}

/// What is wrong with the block of values of a file.
pub open spec fn values_error(data: Seq<u8>, values: int) -> Option<Seq<char>> {
    sparse_reader::block_error(
        "multivector value size overflow"@,
        "multivector file claims "@,
        " value bytes but file is only "@,
        values,
        4,
        8 + 4 * row_count(data),
        data.len() as int,
    )
}

/// What is said of a file that is too short for its header.
pub open spec fn header_error(data: Seq<u8>, path: Seq<char>) -> Seq<char> {
    path + ": not a readable multivector file ("@ + text::decimal(data.len())
        + " bytes, header needs 8)"@
}

/// What is wrong with a file that should hold rows of vectors.
pub open spec fn mvec_error(data: Seq<u8>, path: Seq<char>) -> Option<Seq<char>> {
    let values = token_total(data) * dimension(data);
    if data.len() < 8 {
        Some(header_error(data, path))
    } else if counts_error(data) is Some {
        counts_error(data)
    } else if values > u64::MAX {
        Some("multivector total value count overflow in "@ + path)
    } else if values > usize::MAX {
        Some("multivector total value count too large in "@ + path)
    } else {
        values_error(data, values)
    }
}

/// Vector `j` of a file.
pub open spec fn token_at(data: Seq<u8>, j: int) -> Seq<u32> {
    bytes::u32s_at(
        data,
        8 + 4 * row_count(data) + 4 * (j * dimension(data)),
        dimension(data),
    )
}

/// Row `i` of a file. Vectors without components are not told apart: a row of them is empty.
pub open spec fn mvec_row(data: Seq<u8>, i: int) -> Seq<Seq<u32>> {
    if dimension(data) == 0 {
        Seq::empty()
    } else {
        Seq::new(
            token_counts(data)[i] as nat,
            |t: int| token_at(data, tokens_before(token_counts(data), i) + t),
        )
    }
}

/// The rows of a file.
pub open spec fn mvec_rows(data: Seq<u8>) -> Seq<Seq<Seq<u32>>> {
    Seq::new(row_count(data) as nat, |i: int| mvec_row(data, i))
}

/// A sum of counts is not negative, grows with their number, and fits 64 bits.
proof fn lemma_tokens_before(counts: Seq<u32>, i: int, n: int)
    requires
        0 <= i <= n <= counts.len(),
    ensures
        0 <= tokens_before(counts, i) <= tokens_before(counts, n) <= n * 0xffff_ffff,
    decreases n,
{
    if n > 0 {
        if i == n {
            lemma_tokens_before(counts, n - 1, n - 1);
        } else {
            lemma_tokens_before(counts, i, n - 1);
        }
    }
}

/// The error of a file that is too short for its header.
fn header_problem(path: &str, len: usize) -> (e: String)
    ensures
        e@ == path@ + ": not a readable multivector file ("@ + text::decimal(len as nat)
            + " bytes, header needs 8)"@,
{
    let mut e: String = path.to_owned();
    e.append(": not a readable multivector file (");
    e.append(decimal_text(len as u64).as_str());
    e.append(" bytes, header needs 8)");
    e
}

/// The number of rows that the header of a file declares.
pub fn mvec_row_count(path: &str, data: &[u8]) -> (r: Result<u64, String>)
    ensures
        data@.len() < 8 ==> (r matches Err(e) && e@ == header_error(data@, path@)),
        data@.len() >= 8 ==> (r matches Ok(n) && n == row_count(data@)),
{
    if data.len() < 8 {
        return Err(header_problem(path, data.len()));
    }
    Ok(get_u32_le(data, 0) as u64)
}

/// Reads row by row what a file holds whose blocks have been checked.
fn collect_rows(data: &[u8], counts: &Vec<u32>, dim: usize) -> (rows: Vec<MultiVector>)
    requires
        counts@ == token_counts(data@),
        counts@.len() == row_count(data@),
        dim == dimension(data@),
        8 + 4 * row_count(data@) + 4 * (token_total(data@) * dim) <= data@.len(),
    ensures
        rows_view(rows@) == mvec_rows(data@),
{
    let len: usize = data.len();
    let ghost n = row_count(data@);
    let ghost base = 8 + 4 * n;
    proof {
        lemma_tokens_before(counts@, 0, n);
        assert(0 <= token_total(data@) * dim) by (nonlinear_arith)
            requires
                0 <= token_total(data@),
                0 <= dim,
        ;
    }
    let mut rows: Vec<MultiVector> = Vec::new();
    let mut at: usize = 8 + 4 * counts.len();
    let mut i: usize = 0;
    assert(0 * (dim as int) == 0) by (nonlinear_arith);
    while i < counts.len()
        invariant
            i <= counts@.len(),
            len == data@.len(),
            counts@ == token_counts(data@),
            counts@.len() == n,
            n == row_count(data@),
            dim == dimension(data@),
            base == 8 + 4 * n,
            at == base + 4 * (tokens_before(counts@, i as int) * dim),
            base + 4 * (tokens_before(counts@, n) * dim) <= len,
            rows@.len() == i,
            forall|j: int| 0 <= j < i ==> (#[trigger] rows@[j])@ == mvec_row(data@, j),
        decreases counts@.len() - i,
    {
        let count: u32 = counts[i];
        let ghost before = tokens_before(counts@, i as int);
        proof {
            lemma_tokens_before(counts@, i + 1, n);
            lemma_tokens_before(counts@, i as int, i as int);
            assert((before + count) * dim <= tokens_before(counts@, n) * dim) by (nonlinear_arith)
                requires
                    before + count <= tokens_before(counts@, n),
                    0 <= dim,
            ;
        }
        let mut vectors: Vec<Vec<u32>> = Vec::new();
        let mut t: u32 = 0;
        if dim > 0 {
            while t < count
                invariant
                    t <= count,
                    0 < dim,
                    before == tokens_before(token_counts(data@), i as int),
                    0 <= before,
                    len == data@.len(),
                    n == row_count(data@),
                    dim == dimension(data@),
                    base == 8 + 4 * n,
                    at == base + 4 * ((before + t) * dim),
                    base + 4 * ((before + count) * dim) <= len,
                    vectors@.len() == t,
                    forall|j: int|
                        0 <= j < t ==> (#[trigger] vectors@[j])@ == token_at(data@, before + j),
                decreases count - t,
            {
                proof {
                    assert((before + t + 1) * dim == (before + t) * dim + dim) by (nonlinear_arith);
                    assert((before + t + 1) * dim <= (before + count) * dim) by (nonlinear_arith)
                        requires
                            before + t + 1 <= before + count,
                            0 <= dim,
                    ;
                }
                vectors.push(get_u32s_le(data, at, dim));
                at = at + 4 * dim;
                t += 1;
            }
        } else {
            assert((before + count) * dim == 0 && before * dim == 0) by (nonlinear_arith)
                requires
                    dim == 0,
            ;
        }
        let row: MultiVector = MultiVector { vectors };
        assert(row@ =~= mvec_row(data@, i as int));
        rows.push(row);
        i += 1;
    }
    assert(rows_view(rows@) =~= mvec_rows(data@));
    rows
}

/// Reads the rows that a file holds. Every count is held against the length of the file before
/// anything of that size is made.
pub fn read_multivector_matrix(path: &str, data: &[u8]) -> (r: Result<Vec<MultiVector>, String>)
    ensures
        match mvec_error(data@, path@) {
            Some(e) => r matches Err(m) && m@ == e,
            None => r matches Ok(rows) && rows_view(rows@) == mvec_rows(data@),
        },
{
    let len: usize = data.len();
    if len < 8 {
        return Err(header_problem(path, len));
    }
    let num_rows: u32 = get_u32_le(data, 0);
    let dim: u32 = get_u32_le(data, 4);
    match check_block(
        "multivector token-count size overflow",
        "multivector file claims ",
        " token-count bytes but file is only ",
        num_rows as u64,
        4,
        8,
        len,
    ) {
        Ok(_) => {},
        Err(e) => return Err(e),
    }
    let counts: Vec<u32> = get_u32s_le(data, 8, num_rows as usize);
    let mut total: u64 = 0;
    let mut i: usize = 0;
    while i < counts.len()
        invariant
            i <= counts@.len(),
            counts@.len() <= 0xffff_ffff,
            total == tokens_before(counts@, i as int),
            total <= i * 0xffff_ffff,
        decreases counts@.len() - i,
    {
        total = total + counts[i] as u64;
        i += 1;
    }
    assert(0 <= total * dim <= u64::MAX * 0xffff_ffff) by (nonlinear_arith)
        requires
            0 <= total <= u64::MAX,
            0 <= dim <= 0xffff_ffff,
    ;
    let floats: u128 = (total as u128) * (dim as u128);
    if floats > u64::MAX as u128 {
        let mut e: String = "multivector total value count overflow in ".to_owned();
        e.append(path);
        return Err(e);
    }
    if floats > usize::MAX as u128 {
        let mut e: String = "multivector total value count too large in ".to_owned();
        e.append(path);
        return Err(e);
    }
    match check_block(
        "multivector value size overflow",
        "multivector file claims ",
        " value bytes but file is only ",
        floats as u64,
        4,
        8 + 4 * (num_rows as usize),
        len,
    ) {
        Ok(_) => {},
        Err(e) => return Err(e),
    }
    Ok(collect_rows(data, &counts, dim as usize))
}

/// The vectors of all rows, one row behind the other.
pub open spec fn all_tokens(rows: Seq<Seq<Seq<u32>>>) -> Seq<Seq<u32>>
    decreases rows.len(),
{
    if rows.len() == 0 {
        Seq::empty()
    } else {
        all_tokens(rows.drop_last()) + rows.last()
    }
}

/// The components of all vectors, one vector behind the other.
pub open spec fn all_components(tokens: Seq<Seq<u32>>) -> Seq<u32>
    decreases tokens.len(),
{
    if tokens.len() == 0 {
        Seq::empty()
    } else {
        all_components(tokens.drop_last()) + tokens.last()
    }
}

/// The number of components of the first vector.
pub open spec fn dim_of(rows: Seq<Seq<Seq<u32>>>) -> nat {
    if all_tokens(rows).len() > 0 {
        all_tokens(rows)[0].len()
    } else {
        0
    }
}

/// The number of components of the first vector that has not `dim` of them.
pub open spec fn first_ragged(tokens: Seq<Seq<u32>>, dim: nat) -> Option<nat>
    decreases tokens.len(),
{
    if tokens.len() == 0 {
        None
    } else if first_ragged(tokens.drop_last(), dim) is Some {
        first_ragged(tokens.drop_last(), dim)
    } else if tokens.last().len() != dim {
        Some(tokens.last().len())
    } else {
        None
    }
}

/// How many vectors each row has.
pub open spec fn counts_of(rows: Seq<Seq<Seq<u32>>>) -> Seq<u32> {
    Seq::new(rows.len(), |i: int| rows[i].len() as u32)
}

/// The bytes of the file that holds the rows.
pub open spec fn mvec_bytes(rows: Seq<Seq<Seq<u32>>>) -> Seq<u8> {
    bytes::u32_le(rows.len() as u32) + bytes::u32_le(dim_of(rows) as u32) + bytes::u32s_le(
        counts_of(rows),
    ) + bytes::u32s_le(all_components(all_tokens(rows)))
}

/// A vector of another length among the first is the first of all.
proof fn lemma_first_ragged_prefix(tokens: Seq<Seq<u32>>, dim: nat, n: int)
    requires
        0 <= n <= tokens.len(),
        first_ragged(tokens.take(n), dim) is Some,
    ensures
        first_ragged(tokens, dim) == first_ragged(tokens.take(n), dim),
    decreases tokens.len() - n,
{
    if n < tokens.len() {
        assert(tokens.take(n + 1).drop_last() =~= tokens.take(n));
        lemma_first_ragged_prefix(tokens, dim, n + 1);
    } else {
        assert(tokens.take(n) =~= tokens);
    }
}

/// The vectors of the first rows stand in front of those of all.
proof fn lemma_all_tokens_at(rows: Seq<Seq<Seq<u32>>>, i: int)
    requires
        0 <= i < rows.len(),
    ensures
        all_tokens(rows.take(i)).len() + rows[i].len() == all_tokens(rows.take(i + 1)).len(),
        all_tokens(rows.take(i + 1)).len() <= all_tokens(rows).len(),
        all_tokens(rows).take(all_tokens(rows.take(i)).len() as int) == all_tokens(rows.take(i)),
        forall|t: int|
            0 <= t < rows[i].len() ==> all_tokens(rows)[all_tokens(rows.take(i)).len() + t]
                == #[trigger] rows[i][t],
    decreases rows.len(),
{
    assert(rows.take(i + 1).drop_last() =~= rows.take(i));
    if i == rows.len() - 1 {
        assert(rows.take(i + 1) =~= rows);
        assert(all_tokens(rows).take(all_tokens(rows.take(i)).len() as int) =~= all_tokens(
            rows.take(i),
        ));
    } else {
        let earlier = rows.drop_last();
        lemma_all_tokens_at(earlier, i);
        assert(earlier.take(i) =~= rows.take(i));
        assert(earlier.take(i + 1) =~= rows.take(i + 1));
        assert(all_tokens(rows).take(all_tokens(rows.take(i)).len() as int) =~= all_tokens(
            earlier,
        ).take(all_tokens(rows.take(i)).len() as int));
    }
}

/// The components of two lists of vectors, one behind the other.
proof fn lemma_all_components_concat(a: Seq<Seq<u32>>, b: Seq<Seq<u32>>)
    ensures
        all_components(a + b) == all_components(a) + all_components(b),
    decreases b.len(),
{
    if b.len() == 0 {
        assert(a + b =~= a);
        assert(all_components(a) + all_components(b) =~= all_components(a));
    } else {
        assert((a + b).drop_last() =~= a + b.drop_last());
        lemma_all_components_concat(a, b.drop_last());
        assert(all_components(a + b) =~= all_components(a) + all_components(b));
    }
}

/// The bytes of the file that holds the rows, or what is wrong with them: all vectors must have as
/// many components as the first.
pub fn write_multivector_matrix(rows: &[MultiVector]) -> (r: Result<Vec<u8>, String>)
    ensures
        match first_ragged(all_tokens(rows_view(rows@)), dim_of(rows_view(rows@))) {
            Some(bad) => r matches Err(e) && e@ == "multivector token dim "@ + text::decimal(bad)
                + " does not match the dataset's dim "@ + text::decimal(dim_of(rows_view(rows@))),
            None => r matches Ok(data) && data@ == mvec_bytes(rows_view(rows@)),
        },
{
    let ghost views = rows_view(rows@);
    let ghost tokens = all_tokens(views);
    let mut dim: usize = 0;
    let mut found: bool = false;
    let mut counts: Vec<u8> = Vec::new();
    let mut values: Vec<u8> = Vec::new();
    let mut i: usize = 0;
    proof {
        assert(all_tokens(views.take(0)) =~= Seq::empty());
        assert(tokens.take(0) =~= Seq::empty());
        assert(counts_of(views).take(0) =~= Seq::empty());
        assert(counts@ =~= bytes::u32s_le(counts_of(views).take(0)));
        assert(values@ =~= bytes::u32s_le(all_components(tokens.take(0))));
    }
    while i < rows.len()
        invariant
            i <= rows@.len(),
            views == rows_view(rows@),
            tokens == all_tokens(views),
            found == (all_tokens(views.take(i as int)).len() > 0),
            found ==> dim == dim_of(views),
            !found ==> dim == 0,
            all_tokens(views.take(i as int)).len() <= tokens.len(),
            tokens.take(all_tokens(views.take(i as int)).len() as int) == all_tokens(
                views.take(i as int),
            ),
            first_ragged(all_tokens(views.take(i as int)), dim_of(views)) is None,
            counts@ == bytes::u32s_le(counts_of(views).take(i as int)),
            values@ == bytes::u32s_le(all_components(all_tokens(views.take(i as int)))),
        decreases rows@.len() - i,
    {
        let row: &Vec<Vec<u32>> = &rows[i].vectors;
        let ghost sofar = all_tokens(views.take(i as int));
        let ghost view = views[i as int];
        proof {
            lemma_all_tokens_at(views, i as int);
            assert(views.take(i + 1).drop_last() =~= views.take(i as int));
            assert(counts_of(views).take(i + 1).drop_last() =~= counts_of(views).take(i as int));
            assert(sofar + view.take(0) =~= sofar);
        }
        push_u32_le(
            &mut counts,
            #[verifier::truncate]
            (row.len() as u32),
        );
        let mut t: usize = 0;
        while t < row.len()
            invariant
                t <= row@.len(),
                i < rows@.len(),
                views == rows_view(rows@),
                view == rows@[i as int]@,
                rows@[i as int].vectors == row,
                view.len() == row@.len(),
                sofar.len() + view.len() <= tokens.len(),
                tokens == all_tokens(views),
                tokens.take(sofar.len() as int) == sofar,
                forall|k: int|
                    0 <= k < view.len() ==> tokens[sofar.len() + k] == #[trigger] view[k],
                found == (sofar.len() + t > 0),
                found ==> dim == dim_of(views),
                !found ==> dim == 0,
                first_ragged(sofar + view.take(t as int), dim_of(views)) is None,
                values@ == bytes::u32s_le(all_components(sofar + view.take(t as int))),
            decreases row@.len() - t,
        {
            assert(view[t as int] == row@[t as int]@);
            if !found {
                dim = row[t].len();
                found = true;
                assert(sofar.len() + t == 0);
                assert(tokens[0] == view[t as int]);
            }
            proof {
                let now = sofar + view.take(t + 1);
                assert(now.drop_last() =~= sofar + view.take(t as int));
                assert(now.last() == view[t as int]);
                assert(tokens.take(sofar.len() + t + 1) =~= now);
            }
            if row[t].len() != dim {
                proof {
                    lemma_first_ragged_prefix(tokens, dim_of(views), sofar.len() + t + 1);
                }
                let mut e: String = "multivector token dim ".to_owned();
                e.append(decimal_text(row[t].len() as u64).as_str());
                e.append(" does not match the dataset's dim ");
                e.append(decimal_text(dim as u64).as_str());
                return Err(e);
            }
            proof {
                bytes::lemma_u32s_le_concat(
                    all_components(sofar + view.take(t as int)),
                    view[t as int],
                );
            }
            push_u32s_le(&mut values, &row[t]);
            t += 1;
        }
        proof {
            assert(view.take(t as int) =~= view);
            assert(all_tokens(views.take(i + 1)) =~= sofar + view);
            assert(tokens.take(all_tokens(views.take(i + 1)).len() as int) =~= sofar + view);
        }
        i += 1;
    }
    assert(views.take(i as int) =~= views);
    assert(counts_of(views).take(i as int) =~= counts_of(views));
    assert(dim == dim_of(views));
    let mut data: Vec<u8> = Vec::new();
    push_u32_le(
        &mut data,
        #[verifier::truncate]
        (rows.len() as u32),
    );
    push_u32_le(
        &mut data,
        #[verifier::truncate]
        (dim as u32),
    );
    data.append(&mut counts);
    data.append(&mut values);
    assert(data@ =~= mvec_bytes(views));
    Ok(data)
}

/// Where no vector is of another length, each has `dim` components, and those of vector `j` stand
/// from `j * dim` on.
proof fn lemma_components_at(tokens: Seq<Seq<u32>>, dim: nat, j: int, k: int)
    requires
        first_ragged(tokens, dim) is None,
        0 <= j < tokens.len(),
        0 <= k < dim,
    ensures
        tokens[j].len() == dim,
        0 <= j * dim + k < tokens.len() * dim,
        all_components(tokens).len() == tokens.len() * dim,
        all_components(tokens)[j * dim + k] == tokens[j][k],
    decreases tokens.len(),
{
    lemma_components_len(tokens, dim);
    lemma_components_len(tokens.drop_last(), dim);
    assert(j * dim + k < tokens.len() * dim) by (nonlinear_arith)
        requires
            0 <= j < tokens.len(),
            0 <= k < dim,
    ;
    assert(0 <= j * dim) by (nonlinear_arith)
        requires
            0 <= j,
            0 <= dim,
    ;
    if j < tokens.len() - 1 {
        lemma_components_at(tokens.drop_last(), dim, j, k);
    } else {
        assert((tokens.len() - 1) * dim == j * dim);
    }
}

/// Where no vector is of another length, there are `dim` components for each.
proof fn lemma_components_len(tokens: Seq<Seq<u32>>, dim: nat)
    requires
        first_ragged(tokens, dim) is None,
    ensures
        all_components(tokens).len() == tokens.len() * dim,
        tokens.len() > 0 ==> tokens.last().len() == dim && first_ragged(tokens.drop_last(), dim)
            is None,
    decreases tokens.len(),
{
    if tokens.len() > 0 {
        lemma_components_len(tokens.drop_last(), dim);
        assert(tokens.len() * dim == (tokens.len() - 1) * dim + dim) by (nonlinear_arith);
    } else {
        assert(tokens.len() * dim == 0) by (nonlinear_arith)
            requires
                tokens.len() == 0,
        ;
    }
}

/// The counts of the first rows add up to the number of their vectors.
proof fn lemma_counts_add_up(rows: Seq<Seq<Seq<u32>>>, i: int)
    requires
        0 <= i <= rows.len(),
        forall|j: int| 0 <= j < rows.len() ==> (#[trigger] rows[j]).len() <= u32::MAX,
    ensures
        tokens_before(counts_of(rows), i) == all_tokens(rows.take(i)).len(),
    decreases i,
{
    if i > 0 {
        lemma_counts_add_up(rows, i - 1);
        lemma_all_tokens_at(rows, i - 1);
        assert(rows[i - 1].len() <= u32::MAX);
    } else {
        assert(rows.take(0) =~= Seq::empty());
    }
}

/// Where each vector has `dim` components, that many stand in each.
proof fn lemma_token_len(tokens: Seq<Seq<u32>>, dim: nat, j: int)
    requires
        first_ragged(tokens, dim) is None,
        0 <= j < tokens.len(),
    ensures
        tokens[j].len() == dim,
    decreases tokens.len(),
{
    if j < tokens.len() - 1 {
        lemma_token_len(tokens.drop_last(), dim, j);
    }
}

/// What stands where in the bytes of rows of vectors.
proof fn lemma_mvec_layout(rows: Seq<Seq<Seq<u32>>>)
    requires
        rows.len() <= u32::MAX,
        dim_of(rows) <= u32::MAX,
    ensures
        ({
            let data = mvec_bytes(rows);
            let n = rows.len() as int;
            let values = all_components(all_tokens(rows));
            &&& data.len() == 8 + 4 * n + 4 * values.len()
            &&& row_count(data) == n
            &&& dimension(data) == dim_of(rows)
            &&& token_counts(data) == counts_of(rows)
            &&& bytes::u32s_at(data, 8 + 4 * n, values.len() as int) == values
        }),
{
    let data = mvec_bytes(rows);
    let n = rows.len() as int;
    let counts = counts_of(rows);
    let values = all_components(all_tokens(rows));
    bytes::lemma_u32s_le_len(counts);
    bytes::lemma_u32s_le_len(values);
    assert(data.subrange(0, 4) =~= bytes::u32_le(rows.len() as u32));
    assert(data.subrange(4, 8) =~= bytes::u32_le(dim_of(rows) as u32));
    assert(data.subrange(8, 8 + 4 * n) =~= bytes::u32s_le(counts));
    assert(data.subrange(8 + 4 * n, 8 + 4 * n + 4 * values.len()) =~= bytes::u32s_le(values));
    bytes::lemma_u32_reads_back(rows.len() as u32, data, 0);
    bytes::lemma_u32_reads_back(dim_of(rows) as u32, data, 4);
    bytes::lemma_u32s_read_back(counts, data, 8);
    bytes::lemma_u32s_read_back(values, data, 8 + 4 * n);
}

/// Rows that are written read back as they are, as long as their vectors have components: vectors
/// without any cannot be told apart in the file.
pub proof fn rows_read_back(rows: Seq<Seq<Seq<u32>>>, path: Seq<char>)
    requires
        first_ragged(all_tokens(rows), dim_of(rows)) is None,
        all_tokens(rows).len() > 0 ==> dim_of(rows) > 0,
        rows.len() <= u32::MAX,
        dim_of(rows) <= u32::MAX,
        forall|j: int| 0 <= j < rows.len() ==> (#[trigger] rows[j]).len() <= u32::MAX,
        mvec_bytes(rows).len() <= usize::MAX,
    ensures
        mvec_error(mvec_bytes(rows), path) is None,
        mvec_rows(mvec_bytes(rows)) == rows,
{
    let data = mvec_bytes(rows);
    let n = rows.len() as int;
    let dim = dim_of(rows);
    let tokens = all_tokens(rows);
    let values = all_components(tokens);
    lemma_mvec_layout(rows);
    lemma_components_len(tokens, dim);
    assert(rows.take(n) =~= rows);
    lemma_counts_add_up(rows, n);
    assert(token_total(data) == tokens.len());
    assert forall|i: int| 0 <= i < n implies mvec_row(data, i) == #[trigger] rows[i] by {
        lemma_all_tokens_at(rows, i);
        lemma_counts_add_up(rows, i);
        let before = all_tokens(rows.take(i)).len() as int;
        assert(rows[i].len() <= u32::MAX);
        if dim == 0 {
            assert(mvec_row(data, i) =~= rows[i]);
        } else {
            assert forall|t: int| 0 <= t < rows[i].len() implies token_at(data, before + t)
                == #[trigger] rows[i][t] by {
                lemma_token_len(tokens, dim, before + t);
                assert forall|k: int| 0 <= k < dim implies #[trigger] token_at(
                    data,
                    before + t,
                )[k] == rows[i][t][k] by {
                    lemma_components_at(tokens, dim, before + t, k);
                    assert(bytes::u32s_at(data, 8 + 4 * n, values.len() as int)[(before + t) * dim
                        + k] == values[(before + t) * dim + k]);
                }
                assert(token_at(data, before + t) =~= rows[i][t]);
            }
            assert(mvec_row(data, i) =~= rows[i]);
        }
    }
    assert(mvec_rows(data) =~= rows);
}

} // verus!
