//! Matrices in the NPY format: half-precision ones are read, single-precision ones are written.
use vstd::prelude::*;

use crate::bytes::{self, get_u32_le, push_u32s_le};
use crate::text::{self, chars_of, debug_text, decimal_text, find_text, has_text, parse_unsigned, push_decimal, split_text, string_of, trim_range};

verus! {

/// The shape of a matrix of half-precision numbers, and where its values begin in the file.
#[derive(Debug, Clone, Copy, PartialEq, Eq, Structural)]
pub struct F16NpyHeader {
    pub rows: u64,
    pub cols: u64,
    pub data_start: u64,
}

impl F16NpyHeader {
    /// Where row `row` begins in the file.
    pub fn row_offset(&self, row: u64) -> (at: u64)
        requires
            self.data_start + row * self.cols * 2 <= u64::MAX,
        ensures
            at == self.data_start + row * self.cols * 2,
    {
        proof {
            assert(0 <= row * self.cols) by (nonlinear_arith)
                requires
                    0 <= row,
                    0 <= self.cols,
            ;
        }
        self.data_start + row * self.cols * 2
    }
}

/// What the standard library says of bytes that are not UTF-8.
pub uninterp spec fn utf8_problem(data: Seq<u8>) -> Seq<char>;

/// `std::str::from_utf8`: the text that the bytes encode where they are UTF-8; else what is wrong,
/// which depends on the bytes alone.
#[verifier::external_body]
fn text_of_bytes(data: &[u8]) -> (r: Result<&str, String>)
    ensures
        r is Ok == vstd::utf8::valid_utf8(data@),
        r matches Ok(s) ==> s@ == vstd::utf8::decode_utf8(data@),
        r matches Err(e) ==> e@ == utf8_problem(data@),
{
    std::str::from_utf8(data).map_err(|e| e.to_string())
}

/// The six bytes that every file in the format begins with.
pub open spec fn magic() -> Seq<u8> {
    seq![0x93u8, 0x4e, 0x55, 0x4d, 0x50, 0x59]
}

/// The length of the description, and where it begins.
pub open spec fn description_range(data: Seq<u8>) -> Result<(int, int), Seq<char>> {
    if data.len() < 10 {
        Err("NPY header: fewer than 10 bytes available"@)
    } else if data.take(6) != magic() {
        Err("NPY header: bad magic (not an NPY file)"@)
    } else if data[6] == 1 {
        Ok((data[8] + data[9] * 0x100, 10))
    } else if data[6] == 2 || data[6] == 3 {
        if data.len() < 12 {
            Err("NPY header: v2/v3 length prefix truncated"@)
        } else {
            Ok((bytes::u32_at(data, 8) as int, 12))
        }
    } else {
        Err("NPY header: unsupported major version "@ + text::decimal(data[6] as nat))
    }
}

/// Where the description ends.
pub open spec fn description_end(data: Seq<u8>) -> Result<int, Seq<char>> {
    match description_range(data) {
        Err(e) => Err(e),
        Ok((len, start)) => if start + len > usize::MAX {
            Err("NPY header: length overflow"@)
        } else if data.len() < start + len {
            Err(
                "NPY header: need "@ + text::decimal((start + len) as nat) + " bytes, only "@
                    + text::decimal(data.len()) + " available"@,
            )
        } else {
            Ok(start + len)
        },
    }
}

/// Whether a description is of little-endian half-precision numbers.
pub open spec fn describes_halves(d: Seq<char>) -> bool {
    text::holds_text(d, "'descr': '<f2'"@) || text::holds_text(d, "\"descr\": \"<f2\""@)
}

/// Whether a description is of a matrix that is stored row by row.
pub open spec fn describes_rows(d: Seq<char>) -> bool {
    text::holds_text(d, "'fortran_order': False"@) || text::holds_text(
        d,
        "\"fortran_order\": false"@,
    )
}

/// Where the name of the shape stands in a description.
pub open spec fn shape_name(d: Seq<char>) -> Option<int> {
    match text::first_place(d, "'shape'"@, 0) {
        Some(i) => Some(i),
        None => text::first_place(d, "\"shape\""@, 0),
    }
}

/// What stands between the brackets of the shape.
pub open spec fn shape_text(d: Seq<char>) -> Result<Seq<char>, Seq<char>> {
    match shape_name(d) {
        None => Err("NPY header: no 'shape' tuple"@),
        Some(i) => match text::first_place(d, seq!['('], i) {
            None => Err("NPY header: no 'shape' tuple"@),
            Some(open) => match text::first_place(d, seq![')'], open) {
                None => Err("NPY header: unterminated 'shape' tuple"@),
                Some(close) => Ok(d.subrange(open + 1, close)),
            },
        },
    }
}

/// The dimensions that the parts of a shape write. Empty parts are passed over; the first part that
/// is no number is an error.
pub open spec fn dimensions(parts: Seq<Seq<char>>) -> Result<Seq<u64>, Seq<char>>
    decreases parts.len(),
{
    if parts.len() == 0 {
        Ok(Seq::empty())
    } else {
        match dimensions(parts.drop_last()) {
            Err(e) => Err(e),
            Ok(earlier) => {
                let part = text::trimmed(parts.last());
                if part.len() == 0 {
                    Ok(earlier)
                } else {
                    match text::parsed_unsigned(part) {
                        Some(n) => if n <= u64::MAX {
                            Ok(earlier.push(n as u64))
                        } else {
                            Err("NPY header: non-integer shape entry "@ + text::debug_shown(part))
                        },
                        None => Err(
                            "NPY header: non-integer shape entry "@ + text::debug_shown(part),
                        ),
                    }
                }
            },
        }
    }
}

/// The rows and columns that a description gives.
pub open spec fn described_shape(d: Seq<char>) -> Result<(u64, u64), Seq<char>> {
    if !describes_halves(d) {
        Err(
            "NPY header: expected little-endian float16 ('<f2'), got: "@ + text::trimmed(d),
        )
    } else if !describes_rows(d) {
        Err("NPY header: Fortran-order arrays are not supported"@)
    } else {
        match shape_text(d) {
            Err(e) => Err(e),
            Ok(shape) => match dimensions(text::parted(shape, ',')) {
                Err(e) => Err(e),
                Ok(dims) => if dims.len() == 2 {
                    Ok((dims[0], dims[1]))
                } else {
                    Err(
                        "NPY header: expected a 2-D shape, got "@ + text::decimal(dims.len())
                            + " dimension(s)"@,
                    )
                },
            },
        }
    }
}

/// What the first bytes of a file say of the matrix in it, or why they say nothing.
pub open spec fn header_of(data: Seq<u8>) -> Result<F16NpyHeader, Seq<char>> {
    match description_end(data) {
        Err(e) => Err(e),
        Ok(end) => {
            let description = data.subrange(description_range(data)->Ok_0.1, end);
            if !vstd::utf8::valid_utf8(description) {
                Err("NPY header: not UTF-8: "@ + utf8_problem(description))
            } else {
                match described_shape(vstd::utf8::decode_utf8(description)) {
                    Err(e) => Err(e),
                    Ok((rows, cols)) => Ok(
                        F16NpyHeader { rows, cols, data_start: end as u64 },
                    ),
                }
            }
        },
    }
}

/// An error among the first parts is the error of all.
proof fn lemma_dimensions_prefix(parts: Seq<Seq<char>>, n: int)
    requires
        0 <= n <= parts.len(),
        dimensions(parts.take(n)) is Err,
    ensures
        dimensions(parts) == dimensions(parts.take(n)),
    decreases parts.len() - n,
{
    if n < parts.len() {
        assert(parts.take(n + 1).drop_last() =~= parts.take(n));
        lemma_dimensions_prefix(parts, n + 1);
    } else {
        assert(parts.take(n) =~= parts);
    }
}

/// The dimensions that the text of a shape writes.
fn read_dimensions(shape: &str) -> (r: Result<Vec<u64>, String>)
    ensures
        r is Ok == dimensions(text::parted(shape@, ',')) is Ok,
        r matches Ok(d) ==> dimensions(text::parted(shape@, ','))->Ok_0 == d@,
        r matches Err(e) ==> dimensions(text::parted(shape@, ','))->Err_0 == e@,
{
    let parts: Vec<String> = split_text(shape, ',');
    let ghost views = text::parted(shape@, ',');
    let mut dims: Vec<u64> = Vec::new();
    let mut i: usize = 0;
    assert(dims@ =~= Seq::empty());
    while i < parts.len()
        invariant
            i <= parts@.len(),
            views == text::texts_view(parts@),
            views == text::parted(shape@, ','),
            dimensions(views.take(i as int)) matches Ok(found) && found == dims@,
        decreases parts@.len() - i,
    {
        proof {
            assert(views.take(i + 1).drop_last() =~= views.take(i as int));
            assert(views.take(i + 1).last() == views[i as int]);
        }
        let chars: Vec<char> = chars_of(parts[i].as_str());
        let range: (usize, usize) = trim_range(&chars, 0, chars.len());
        assert(chars@.subrange(0, chars@.len() as int) =~= chars@);
        if range.0 < range.1 {
            let part: String = string_of(&chars, range.0, range.1);
            match parse_unsigned(part.as_str(), u64::MAX) {
                Some(n) => {
                    dims.push(n);
                },
                None => {
                    proof {
                        lemma_dimensions_prefix(views, i + 1);
                    }
                    let mut e: String = "NPY header: non-integer shape entry ".to_owned();
                    e.append(debug_text(part.as_str()).as_str());
                    return Err(e);
                },
            }
        }
        i += 1;
    }
    assert(views.take(i as int) =~= views);
    Ok(dims)
}

/// What stands between the brackets of the shape.
fn find_shape(d: &[char]) -> (r: Result<String, String>)
    ensures
        r is Ok == shape_text(d@) is Ok,
        r matches Ok(s) ==> shape_text(d@)->Ok_0 == s@,
        r matches Err(e) ==> shape_text(d@)->Err_0 == e@,
{
    let single: Vec<char> = chars_of("'shape'");
    let double: Vec<char> = chars_of("\"shape\"");
    let name: Option<usize> = match find_text(d, &single, 0) {
        Some(i) => Some(i),
        None => find_text(d, &double, 0),
    };
    let at: usize = match name {
        Some(i) => i,
        None => return Err("NPY header: no 'shape' tuple".to_owned()),
    };
    let mut bracket: Vec<char> = Vec::new();
    bracket.push('(');
    assert(bracket@ =~= seq!['(']);
    let open: usize = match find_text(d, &bracket, at) {
        Some(i) => i,
        None => return Err("NPY header: no 'shape' tuple".to_owned()),
    };
    let mut ending: Vec<char> = Vec::new();
    ending.push(')');
    assert(ending@ =~= seq![')']);
    let close: usize = match find_text(d, &ending, open) {
        Some(i) => i,
        None => return Err("NPY header: unterminated 'shape' tuple".to_owned()),
    };
    proof {
        text::lemma_first_place(d@, seq!['('], at as int);
        text::lemma_first_place(d@, seq![')'], open as int);
        assert(d@.subrange(open as int, open + 1)[0] == '(');
        assert(d@.subrange(close as int, close + 1)[0] == ')');
    }
    Ok(string_of(d, open + 1, close))
}

/// The rows and columns that a description gives.
fn read_description(description: &str) -> (r: Result<(u64, u64), String>)
    ensures
        r is Ok == described_shape(description@) is Ok,
        r matches Ok(s) ==> described_shape(description@)->Ok_0 == s,
        r matches Err(e) ==> described_shape(description@)->Err_0 == e@,
{
    let d: Vec<char> = chars_of(description);
    if !(has_text(&d, "'descr': '<f2'") || has_text(&d, "\"descr\": \"<f2\"")) {
        let range: (usize, usize) = trim_range(&d, 0, d.len());
        assert(d@.subrange(0, d@.len() as int) =~= d@);
        let mut e: String =
            "NPY header: expected little-endian float16 ('<f2'), got: ".to_owned();
        e.append(string_of(&d, range.0, range.1).as_str());
        return Err(e);
    }
    if !(has_text(&d, "'fortran_order': False") || has_text(&d, "\"fortran_order\": false")) {
        return Err("NPY header: Fortran-order arrays are not supported".to_owned());
    }
    let shape: String = match find_shape(&d) {
        Ok(s) => s,
        Err(e) => return Err(e),
    };
    let dims: Vec<u64> = match read_dimensions(shape.as_str()) {
        Ok(v) => v,
        Err(e) => return Err(e),
    };
    if dims.len() != 2 {
        let mut e: String = "NPY header: expected a 2-D shape, got ".to_owned();
        e.append(decimal_text(dims.len() as u64).as_str());
        e.append(" dimension(s)");
        return Err(e);
    }
    Ok((dims[0], dims[1]))
}

/// The length of the description, and where it begins.
fn find_description(data: &[u8]) -> (r: Result<(usize, usize), String>)
    ensures
        r is Ok == description_range(data@) is Ok,
        r matches Ok(d) ==> description_range(data@)->Ok_0 == (d.0 as int, d.1 as int),
        r matches Ok(d) ==> d.1 <= data@.len(),
        r matches Err(e) ==> description_range(data@)->Err_0 == e@,
{
    if data.len() < 10 {
        return Err("NPY header: fewer than 10 bytes available".to_owned());
    }
    if !(data[0] == 0x93 && data[1] == 0x4e && data[2] == 0x55 && data[3] == 0x4d && data[4] == 0x50
        && data[5] == 0x59) {
        assert(data@.take(6) != magic()) by {
            let t = data@.take(6);
            let m = magic();
            if t == m {
                assert(t[0] == m[0] && t[1] == m[1] && t[2] == m[2] && t[3] == m[3] && t[4]
                    == m[4] && t[5] == m[5]);
            }
        }
        return Err("NPY header: bad magic (not an NPY file)".to_owned());
    }
    assert(data@.take(6) =~= magic());
    let major: u8 = data[6];
    if major == 1 {
        Ok(((data[8] as usize) + (data[9] as usize) * 0x100, 10))
    } else if major == 2 || major == 3 {
        if data.len() < 12 {
            return Err("NPY header: v2/v3 length prefix truncated".to_owned());
        }
        Ok((get_u32_le(data, 8) as usize, 12))
    } else {
        let mut e: String = "NPY header: unsupported major version ".to_owned();
        e.append(decimal_text(major as u64).as_str());
        Err(e)
    }
}

/// Reads the header of a matrix of half-precision numbers out of the first bytes of its file. Any
/// other type of number, order or number of dimensions is an error: the values are found by their
/// place alone.
pub fn parse_f16_npy_header(data: &[u8]) -> (r: Result<F16NpyHeader, String>)
    ensures
        r is Ok == header_of(data@) is Ok,
        r matches Ok(h) ==> header_of(data@)->Ok_0 == h,
        r matches Err(e) ==> header_of(data@)->Err_0 == e@,
{
    let (len, start): (usize, usize) = match find_description(data) {
        Ok(d) => d,
        Err(e) => return Err(e),
    };
    if len > usize::MAX - start {
        return Err("NPY header: length overflow".to_owned());
    }
    let end: usize = start + len;
    if data.len() < end {
        let mut e: String = "NPY header: need ".to_owned();
        e.append(decimal_text(end as u64).as_str());
        e.append(" bytes, only ");
        e.append(decimal_text(data.len() as u64).as_str());
        e.append(" available");
        return Err(e);
    }
    let description: &str = match text_of_bytes(vstd::slice::slice_subrange(data, start, end)) {
        Ok(s) => s,
        Err(problem) => {
            let mut e: String = "NPY header: not UTF-8: ".to_owned();
            e.append(problem.as_str());
            return Err(e);
        },
    };
    match read_description(description) {
        Ok((rows, cols)) => Ok(F16NpyHeader { rows, cols, data_start: end as u64 }),
        Err(e) => Err(e),
    }
}

/// The single-precision pattern of a number below the smallest that half precision holds in full:
/// `m` is doubled, and the exponent lowered, until it has all its bits.
pub open spec fn scaled(m: int, exponent: int) -> int
    decreases 0x800 - m,
{
    if m <= 0 || m >= 0x400 {
        exponent * 0x80_0000 + (m - 0x400) * 0x2000
    } else {
        scaled(2 * m, exponent - 1)
    }
}

/// The single-precision pattern of the number with the half-precision pattern `h`. Single precision
/// holds every such number exactly; what is no number stays none.
pub open spec fn widened(h: u16) -> int {
    let m = (h % 0x8000) as int;
    (if h >= 0x8000 {
        0x8000_0000int
    } else {
        0
    }) + (if m == 0 {
        0
    } else if m < 0x400 {
        scaled(m, 113)
    } else if m < 0x7c00 {
        m * 0x2000 + 0x3800_0000
    } else if m == 0x7c00 {
        0x7f80_0000
    } else {
        0x7fc0_0000 + m % 0x200 * 0x2000
    })
}

/// The single-precision pattern of the number with the half-precision pattern `h`.
pub fn widen(h: u16) -> (bits: u32)
    ensures
        bits == widened(h),
{
    let m: u32 = (h % 0x8000) as u32;
    let sign: u32 = if h >= 0x8000 {
        0x8000_0000
    } else {
        0
    };
    if m == 0 {
        sign
    } else if m < 0x400 {
        let mut n: u32 = m;
        let mut exponent: u32 = 113;
        while n < 0x400
            invariant
                0 < n < 0x800,
                m < 0x400,
                103 <= exponent <= 113,
                exponent == 113 ==> n == m,
                n >= 1 && exponent <= 112 ==> n >= 2,
                exponent <= 111 ==> n >= 4,
                exponent <= 110 ==> n >= 8,
                exponent <= 109 ==> n >= 0x10,
                exponent <= 108 ==> n >= 0x20,
                exponent <= 107 ==> n >= 0x40,
                exponent <= 106 ==> n >= 0x80,
                exponent <= 105 ==> n >= 0x100,
                exponent <= 104 ==> n >= 0x200,
                exponent <= 103 ==> n >= 0x400,
                scaled(n as int, exponent as int) == scaled(m as int, 113),
            decreases 0x800 - n,
        {
            n = 2 * n;
            exponent = exponent - 1;
        }
        sign + exponent * 0x80_0000 + (n - 0x400) * 0x2000
    } else if m < 0x7c00 {
        sign + m * 0x2000 + 0x3800_0000
    } else if m == 0x7c00 {
        sign + 0x7f80_0000
    } else {
        sign + 0x7fc0_0000 + m % 0x200 * 0x2000
    }
}

/// The half-precision pattern at place `i` of a block.
pub open spec fn half_at(data: Seq<u8>, i: int) -> u16 {
    (data[2 * i] + data[2 * i + 1] * 0x100) as u16
}

/// Reads a block of little-endian half-precision numbers as single-precision patterns. A block that
/// ends inside a number is an error.
pub fn decode_f16_block(data: &[u8]) -> (r: Result<Vec<u32>, String>)
    ensures
        data@.len() % 2 == 1 ==> (r matches Err(e) && e@
            == "float16 block has an odd byte length ("@ + text::decimal(data@.len())
            + "), so it ends mid-value"@),
        data@.len() % 2 == 0 ==> (r matches Ok(v) && v@.len() == data@.len() / 2 && forall|i: int|
            0 <= i < v@.len() ==> #[trigger] v@[i] == widened(half_at(data@, i))),
{
    let len: usize = data.len();
    if len % 2 != 0 {
        let mut e: String = "float16 block has an odd byte length (".to_owned();
        e.append(decimal_text(len as u64).as_str());
        e.append("), so it ends mid-value");
        return Err(e);
    }
    let mut v: Vec<u32> = Vec::new();
    let mut i: usize = 0;
    while i < len / 2
        invariant
            len == data@.len(),
            i <= len / 2,
            v@.len() == i,
            forall|j: int| 0 <= j < i ==> #[trigger] v@[j] == widened(half_at(data@, j)),
        decreases len / 2 - i,
    {
        let h: u16 = (data[2 * i] as u16) + (data[2 * i + 1] as u16) * 0x100;
        v.push(widen(h));
        i += 1;
    }
    Ok(v)
}

/// The description of a matrix of single-precision numbers.
pub open spec fn description_of(rows: nat, cols: nat) -> Seq<char> {
    "{'descr': '<f4', 'fortran_order': False, 'shape': ("@ + text::decimal(rows) + ", "@
        + text::decimal(cols) + "), }"@
}

/// The number of spaces behind a description of `len` characters, so that the values begin at a
/// multiple of 64.
pub open spec fn padding(len: nat) -> int {
    (64 - (len + 11) % 64) % 64
}

/// The bytes of an ASCII text.
pub open spec fn ascii_bytes(s: Seq<char>) -> Seq<u8> {
    Seq::new(s.len(), |i: int| s[i] as u8)
}

/// The header of a matrix of single-precision numbers.
pub open spec fn f32_header(rows: nat, cols: nat) -> Seq<u8> {
    let d = description_of(rows, cols);
    let len = d.len() + padding(d.len()) + 1;
    magic() + seq![1u8, 0u8, (len % 0x100) as u8, (len / 0x100 % 0x100) as u8] + ascii_bytes(d)
        + Seq::new(padding(d.len()) as nat, |i: int| 0x20u8) + seq![0x0au8]
}

/// Every header ends at a multiple of 64 bytes.
pub proof fn headers_are_aligned(rows: nat, cols: nat)
    ensures
        f32_header(rows, cols).len() % 64 == 0,
        f32_header(rows, cols).len() == 10 + description_of(rows, cols).len() + padding(
            description_of(rows, cols).len(),
        ) + 1,
{
}

/// A decimal number has at most as many digits as a larger one.
proof fn lemma_decimal_len(n: nat, limit: nat)
    requires
        n <= limit,
    ensures
        1 <= text::decimal(n).len() <= text::decimal(limit).len(),
    decreases limit,
{
    if limit >= 10 {
        if n >= 10 {
            lemma_decimal_len(n / 10, limit / 10);
        } else {
            lemma_decimal_len(0, limit / 10);
        }
    }
}

/// Every number of rows that the corpus can have gives a header of the same size: a header can be
/// reserved before the rows are counted.
pub proof fn headers_of_the_corpus_have_one_size(rows: nat)
    requires
        rows <= crate::msmarco::sampling::TOTAL_PASSAGES,
    ensures
        f32_header(rows, crate::msmarco::sampling::DIM as nat).len() == 128,
{
    reveal_strlit("{'descr': '<f4', 'fortran_order': False, 'shape': (");
    reveal_strlit(", ");
    reveal_strlit("), }");
    lemma_decimal_len(rows, crate::msmarco::sampling::TOTAL_PASSAGES as nat);
    lemma_corpus_digits();
}

/// How many digits the largest number of rows and the number of components have.
proof fn lemma_corpus_digits()
    ensures
        text::decimal(113_520_750).len() == 9,
        text::decimal(1024).len() == 4,
{
    assert(text::decimal(1).len() == 1);
    assert(text::decimal(11).len() == 2);
    assert(text::decimal(113).len() == 3);
    assert(text::decimal(1135).len() == 4);
    assert(text::decimal(11352).len() == 5);
    assert(text::decimal(113_520).len() == 6);
    assert(text::decimal(1_135_207).len() == 7);
    assert(text::decimal(11_352_075).len() == 8);
    assert(text::decimal(10).len() == 2);
    assert(text::decimal(102).len() == 3);
}

/// Writes an ASCII text.
fn push_ascii(out: &mut Vec<u8>, s: &str)
    ensures
        final(out)@ == old(out)@ + ascii_bytes(s@),
{
    let chars: Vec<char> = chars_of(s);
    let ghost before = out@;
    let mut i: usize = 0;
    while i < chars.len()
        invariant
            i <= chars@.len(),
            chars@ == s@,
            out@ == before + ascii_bytes(s@.take(i as int)),
        decreases chars@.len() - i,
    {
        let b: u8 = #[verifier::truncate]
        (chars[i] as u8);
        out.push(b);
        assert(out@ =~= before + ascii_bytes(s@.take(i + 1)));
        i += 1;
    }
    assert(s@.take(i as int) =~= s@);
}

/// The header of a matrix of single-precision numbers.
pub fn npy_f32_header(rows: u64, cols: usize) -> (out: Vec<u8>)
    ensures
        out@ == f32_header(rows as nat, cols as nat),
{
    let mut d: String = "{'descr': '<f4', 'fortran_order': False, 'shape': (".to_owned();
    push_decimal(&mut d, rows);
    d.append(", ");
    push_decimal(&mut d, cols as u64);
    d.append("), }");
    proof {
        reveal_strlit("{'descr': '<f4', 'fortran_order': False, 'shape': (");
        reveal_strlit(", ");
        reveal_strlit("), }");
        lemma_decimal_len(rows as nat, u64::MAX as nat);
        lemma_decimal_len(cols as nat, u64::MAX as nat);
        reveal_with_fuel(text::decimal, 21);
        assert(text::decimal(0xffff_ffff_ffff_ffff).len() == 20);
    }
    let n: usize = chars_of(d.as_str()).len();
    assert(n == description_of(rows as nat, cols as nat).len());
    let pad: usize = (64 - (n + 11) % 64) % 64;
    let len: usize = n + pad + 1;
    let mut out: Vec<u8> = Vec::new();
    out.push(0x93);
    out.push(0x4e);
    out.push(0x55);
    out.push(0x4d);
    out.push(0x50);
    out.push(0x59);
    out.push(1);
    out.push(0);
    out.push((len % 0x100) as u8);
    out.push((len / 0x100 % 0x100) as u8);
    push_ascii(&mut out, d.as_str());
    let ghost front = out@;
    let mut i: usize = 0;
    while i < pad
        invariant
            i <= pad,
            out@ == front + Seq::new(i as nat, |j: int| 0x20u8),
        decreases pad - i,
    {
        out.push(0x20);
        assert(out@ =~= front + Seq::new((i + 1) as nat, |j: int| 0x20u8));
        i += 1;
    }
    out.push(0x0a);
    assert(out@ =~= f32_header(rows as nat, cols as nat));
    out
}

/// A matrix of single-precision numbers that is written row by row, behind a header that is reserved
/// first and written last. The bytes go wherever the caller puts them.
pub struct DeferredNpyF32Writer {
    cols: usize,
    rows_written: u64,
    header_len: usize,
}

impl DeferredNpyF32Writer {
    /// The number of values of a row.
    pub closed spec fn columns(&self) -> nat {
        self.cols as nat
    }

    /// The number of rows so far.
    pub closed spec fn rows(&self) -> nat {
        self.rows_written as nat
    }

    /// The number of bytes reserved for the header.
    pub closed spec fn reserved(&self) -> nat {
        self.header_len as nat
    }

    /// Begins a matrix: the bytes that hold the place of the header come first.
    pub fn create(cols: usize) -> (r: (Self, Vec<u8>))
        ensures
            r.0.columns() == cols,
            r.0.rows() == 0,
            r.0.reserved() == f32_header(1, cols as nat).len(),
            r.1@ == Seq::new(f32_header(1, cols as nat).len(), |i: int| 0u8),
    {
        let header_len: usize = npy_f32_header(1, cols).len();
        let place: Vec<u8> = vec![0; header_len];
        assert(place@ =~= Seq::new(header_len as nat, |i: int| 0u8));
        (DeferredNpyF32Writer { cols, rows_written: 0, header_len }, place)
    }

    /// The bytes of the next row. A row with another number of values is an error.
    pub fn write_row(&mut self, row: &[u32]) -> (r: Result<Vec<u8>, String>)
        requires
            old(self).rows() < u64::MAX,
        ensures
            final(self).columns() == old(self).columns(),
            final(self).reserved() == old(self).reserved(),
            row@.len() != old(self).columns() ==> final(self).rows() == old(self).rows() && (
            r matches Err(e) && e@ == "NPY row has "@ + text::decimal(row@.len())
                + " values, expected "@ + text::decimal(old(self).columns())),
            row@.len() == old(self).columns() ==> final(self).rows() == old(self).rows() + 1 && (
            r matches Ok(b) && b@ == bytes::u32s_le(row@)),
    {
        if row.len() != self.cols {
            let mut e: String = "NPY row has ".to_owned();
            e.append(decimal_text(row.len() as u64).as_str());
            e.append(" values, expected ");
            e.append(decimal_text(self.cols as u64).as_str());
            return Err(e);
        }
        let mut b: Vec<u8> = Vec::new();
        push_u32s_le(&mut b, row);
        assert(b@ =~= bytes::u32s_le(row@));
        self.rows_written = self.rows_written + 1;
        Ok(b)
    }

    /// The number of rows so far.
    pub fn rows_written(&self) -> (n: u64)
        ensures
            n == self.rows(),
    {
        self.rows_written
    }

    /// The header to write in the place reserved for it, and the number of rows. A header of another
    /// size is an error: the values would begin at the wrong place.
    pub fn finish(self) -> (r: Result<(Vec<u8>, u64), String>)
        ensures
            f32_header(self.rows(), self.columns()).len() == self.reserved() ==> (r matches Ok(done)
                && done.0@ == f32_header(self.rows(), self.columns()) && done.1 == self.rows()),
            f32_header(self.rows(), self.columns()).len() != self.reserved() ==> (r matches Err(e)
                && e@ == "NPY header for "@ + text::decimal(self.rows()) + " rows renders to "@
                + text::decimal(f32_header(self.rows(), self.columns()).len()) + " bytes but "@
                + text::decimal(self.reserved())
                + " were reserved — the payload would start at the wrong offset"@),
    {
        let header: Vec<u8> = npy_f32_header(self.rows_written, self.cols);
        if header.len() != self.header_len {
            let mut e: String = "NPY header for ".to_owned();
            e.append(decimal_text(self.rows_written).as_str());
            e.append(" rows renders to ");
            e.append(decimal_text(header.len() as u64).as_str());
            e.append(" bytes but ");
            e.append(decimal_text(self.header_len as u64).as_str());
            e.append(" were reserved — the payload would start at the wrong offset");
            return Err(e);
        }
        Ok((header, self.rows_written))
    }
}

/// What a half-precision pattern stands for, in units of the smallest number above zero, without its sign.
pub open spec fn half_units(h: u16) -> int {
    let m = (h % 0x8000) as int;
    if m < 0x400 {
        m
    } else {
        (0x400 + m % 0x400) * vstd::arithmetic::power2::pow2((m / 0x400 - 1) as nat)
    }
}

/// Doubling the digits and lowering the exponent keeps the number.
proof fn lemma_scaled(m: int, exponent: int)
    requires
        0 < m < 0x800,
        103 <= exponent <= 113,
        m >= 0x400 || exponent > 103,
        exponent < 113 ==> m >= vstd::arithmetic::power2::pow2((113 - exponent) as nat),
    ensures
        scaled(m, exponent) / 0x80_0000 >= 103,
        (0x80_0000 + scaled(m, exponent) % 0x80_0000) * vstd::arithmetic::power2::pow2(
            (scaled(m, exponent) / 0x80_0000 - 103) as nat,
        ) == m * 0x2000 * vstd::arithmetic::power2::pow2((exponent - 103) as nat),
        0 < scaled(m, exponent) < 0x3900_0000,
    decreases 0x800 - m,
{
    vstd::arithmetic::power2::lemma2_to64();
    if m < 0x400 {
        let power = vstd::arithmetic::power2::pow2((exponent - 104) as nat) as int;
        vstd::arithmetic::power2::lemma_pow2_unfold((exponent - 103) as nat);
        vstd::arithmetic::power2::lemma_pow2_unfold((114 - exponent) as nat);
        if exponent == 104 {
            assert(m >= 0x200);
        }
        lemma_scaled(2 * m, exponent - 1);
        assert((2 * m) * 0x2000 * power == m * 0x2000 * (2 * power)) by (nonlinear_arith);
    }
}

/// A half-precision number is widened to the same number: its sign stays, its digits with their power of two
/// make up the same number, zero stays zero, infinity infinity, and what is no number stays none.
pub proof fn numbers_are_widened_to_themselves(h: u16)
    requires
        h < 0x8000,
    ensures
        h == 0 ==> widened(h) == 0,
        0 < h < 0x7c00 ==> {
            let w = widened(h);
            &&& 103 <= w / 0x80_0000 < 255
            &&& (0x80_0000 + w % 0x80_0000) * vstd::arithmetic::power2::pow2(
                (w / 0x80_0000 - 103) as nat,
            ) == half_units(h) * 0x80_0000
        },
        h == 0x7c00 ==> widened(h) == 0x7f80_0000,
        h > 0x7c00 ==> 0x7f80_0000 < widened(h) < 0x8000_0000,
        widened((h + 0x8000) as u16) == widened(h) + 0x8000_0000,
{
    let m = h as int;
    assert((h % 0x8000) as int == m);
    if 0 < m < 0x400 {
        vstd::arithmetic::power2::lemma2_to64();
        lemma_scaled(m, 113);
        assert(m * 0x2000 * 0x400 == m * 0x80_0000) by (nonlinear_arith);
    } else if 0x400 <= m < 0x7c00 {
        let e = m / 0x400;
        let f = m % 0x400;
        let w = widened(h);
        assert(w == (e + 112) * 0x80_0000 + f * 0x2000);
        assert(w / 0x80_0000 == e + 112);
        assert(w % 0x80_0000 == f * 0x2000);
        let power = vstd::arithmetic::power2::pow2((e - 1) as nat) as int;
        vstd::arithmetic::power2::lemma2_to64();
        vstd::arithmetic::power2::lemma_pow2_adds((e - 1) as nat, 10);
        assert((0x80_0000 + f * 0x2000) * (power * 0x400) == (0x400 + f) * power * 0x80_0000)
            by (nonlinear_arith);
    }
}

/// A half-precision number is read from its two bytes, the lower one first.
pub proof fn halves_are_read_low_byte_first(data: Seq<u8>, h: u16, i: int)
    requires
        0 <= i,
        2 * i + 1 < data.len(),
        data[2 * i] == (h % 0x100) as u8,
        data[2 * i + 1] == (h / 0x100) as u8,
    ensures
        half_at(data, i) == h,
{
}

/// A number with spaces around it is read as it is.
proof fn lemma_trimmed_number(front: Seq<char>, n: nat)
    requires
        front.len() <= 1,
        front.len() == 1 ==> front[0] == ' ',
    ensures
        text::trimmed(front + text::decimal(n)) == text::decimal(n),
{
    let d = text::decimal(n);
    let s = front + d;
    text::decimal_reads_back(n);
    assert(text::is_digit(d[0]) && text::is_digit(d[d.len() - 1]));
    let (from, to) = text::only_white_space_is_trimmed(s);
    let k = front.len() as int;
    assert(s[k] == d[0]);
    assert(s[s.len() - 1] == d[d.len() - 1]);
    assert(!text::white_space(s[k]));
    assert(!text::white_space(s[s.len() - 1]));
    assert(from <= k);
    assert(to == s.len());
    if k == 1 && from == 0 {
        assert(text::white_space(s[0]));
    }
    assert(s.subrange(k, s.len() as int) =~= d);
}

/// A shape that is written as two numbers is read as those, the rows before the columns.
pub proof fn shapes_are_read_as_they_are_written(rows: u64, cols: u64)
    ensures
        dimensions(
            text::parted(
                text::decimal(rows as nat) + seq![','] + (seq![' '] + text::decimal(cols as nat)),
                ',',
            ),
        ) == Ok::<Seq<u64>, Seq<char>>(seq![rows, cols]),
{
    let a = text::decimal(rows as nat);
    let d = text::decimal(cols as nat);
    let b = seq![' '] + d;
    text::decimal_reads_back(rows as nat);
    text::decimal_reads_back(cols as nat);
    if a.contains(',') {
        let k = choose|k: int| 0 <= k < a.len() && a[k] == ',';
        assert(text::is_digit(a[k]));
    }
    if b.contains(',') {
        let k = choose|k: int| 0 <= k < b.len() && b[k] == ',';
        assert(k > 0 && b[k] == d[k - 1]);
        assert(text::is_digit(d[k - 1]));
    }
    text::two_parts_are_told_apart(a, b, ',');
    let parts = seq![a, b];
    lemma_trimmed_number(Seq::empty(), rows as nat);
    assert(Seq::<char>::empty() + a =~= a);
    lemma_trimmed_number(seq![' '], cols as nat);
    assert(parts.drop_last() =~= seq![a]);
    assert(seq![a].drop_last() =~= Seq::empty());
    assert(dimensions(seq![a].drop_last()) == Ok::<Seq<u64>, Seq<char>>(Seq::empty()));
    assert(dimensions(seq![a])->Ok_0 =~= seq![rows]);
    assert(dimensions(parts)->Ok_0 =~= seq![rows, cols]);
}

/// A header says where the values begin: behind the header.
pub proof fn headers_say_where_the_values_begin(rows: nat, cols: nat)
    requires
        f32_header(rows, cols).len() < 0x1_0000,
    ensures
        description_end(f32_header(rows, cols)) == Ok::<int, Seq<char>>(
            f32_header(rows, cols).len() as int,
        ),
        f32_header(rows, cols).last() == 0x0a,
{
    let header = f32_header(rows, cols);
    let d = description_of(rows, cols);
    let len = d.len() + padding(d.len()) + 1;
    headers_are_aligned(rows, cols);
    assert(header.take(6) =~= magic());
    assert(header[6] == 1);
    assert(header[8] == (len % 0x100) as u8);
    assert(header[9] == (len / 0x100 % 0x100) as u8);
}

/// A character that stands at a place and at none before is found there.
proof fn lemma_found_at(d: Seq<char>, c: char, from: int, at: int)
    requires
        0 <= from <= at < d.len(),
        d[at] == c,
        forall|k: int| from <= k < at ==> #[trigger] d[k] != c,
    ensures
        text::first_place(d, seq![c], from) == Some(at),
    decreases at - from,
{
    let one = d.subrange(from, from + 1);
    assert(one[0] == d[from]);
    if from == at {
        assert(one =~= seq![c]);
    } else {
        assert(seq![c][0] == c);
        assert(one != seq![c]);
        lemma_found_at(d, c, from + 1, at);
    }
}

/// The shape of a matrix is what stands between the first brackets behind its name.
pub proof fn shapes_stand_in_brackets(d: Seq<char>, name: int, open: int, close: int)
    requires
        text::first_place(d, "'shape'"@, 0) == Some(name),
        0 <= name <= open < close < d.len(),
        d[open] == '(',
        forall|k: int| name <= k < open ==> #[trigger] d[k] != '(',
        d[close] == ')',
        forall|k: int| open <= k < close ==> #[trigger] d[k] != ')',
    ensures
        shape_text(d) == Ok::<Seq<char>, Seq<char>>(d.subrange(open + 1, close)),
{
    lemma_found_at(d, '(', name, open);
    lemma_found_at(d, ')', open, close);
}

/// Only matrices of little-endian half-precision numbers that are stored row by row are read, with two
/// dimensions, the rows first.
pub proof fn only_rows_of_halves_are_read(d: Seq<char>)
    ensures
        described_shape(d) matches Ok((rows, cols)) ==> {
            &&& text::holds_text(d, "'descr': '<f2'"@) || text::holds_text(d, "\"descr\": \"<f2\""@)
            &&& text::holds_text(d, "'fortran_order': False"@) || text::holds_text(
                d,
                "\"fortran_order\": false"@,
            )
            &&& shape_text(d) matches Ok(shape)
            &&& dimensions(text::parted(shape, ',')) matches Ok(dims)
            &&& dims =~= seq![rows, cols]
        },
{
}

/// A header is one of the format: it begins with its mark, and the values begin behind the description.
pub proof fn headers_begin_with_their_mark(data: Seq<u8>)
    ensures
        header_of(data) matches Ok(h) ==> {
            &&& data.len() >= 10
            &&& data[0] == 0x93 && data[1] == 0x4e && data[2] == 0x55 && data[3] == 0x4d && data[4] == 0x50
                && data[5] == 0x59
            &&& 1 <= data[6] <= 3
            &&& data[6] == 1 ==> h.data_start == (10 + data[8] + 256 * data[9]) as u64
            &&& 10 <= h.data_start as int <= data.len() || data.len() > u64::MAX
        },
{
    if header_of(data) is Ok {
        let front = data.take(6);
        assert(front == magic());
        assert(front[0] == data[0] && front[1] == data[1] && front[2] == data[2]);
        assert(front[3] == data[3] && front[4] == data[4] && front[5] == data[5]);
    }
}

} // verus!
