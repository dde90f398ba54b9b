//! Integers as little-endian bytes.
use vstd::prelude::*;

verus! {

/// The four bytes of `v`, the lowest first.
pub open spec fn u32_le(v: u32) -> Seq<u8> {
    seq![
        (v % 0x100) as u8,
        (v / 0x100 % 0x100) as u8,
        (v / 0x1_0000 % 0x100) as u8,
        (v / 0x100_0000) as u8,
    ]
}

/// The number whose four bytes stand in `s` at `at`, the lowest first.
pub open spec fn u32_at(s: Seq<u8>, at: int) -> u32 {
    (s[at] + s[at + 1] * 0x100 + s[at + 2] * 0x1_0000 + s[at + 3] * 0x100_0000) as u32
}

/// The eight bytes of `v`, the lowest first.
pub open spec fn u64_le(v: u64) -> Seq<u8> {
    u32_le((v % 0x1_0000_0000) as u32) + u32_le((v / 0x1_0000_0000) as u32)
}

/// The number whose eight bytes stand in `s` at `at`, the lowest first.
pub open spec fn u64_at(s: Seq<u8>, at: int) -> u64 {
    (u32_at(s, at) + u32_at(s, at + 4) * 0x1_0000_0000) as u64
}

/// The bytes of several numbers, one behind the other.
pub open spec fn u32s_le(values: Seq<u32>) -> Seq<u8>
    decreases values.len(),
{
    if values.len() == 0 {
        Seq::empty()
    } else {
        u32s_le(values.drop_last()) + u32_le(values.last())
    }
}

/// The bytes of several numbers, one behind the other.
pub open spec fn u64s_le(values: Seq<u64>) -> Seq<u8>
    decreases values.len(),
{
    if values.len() == 0 {
        Seq::empty()
    } else {
        u64s_le(values.drop_last()) + u64_le(values.last())
    }
}

/// The `n` numbers of four bytes that stand in `s` from `at` on.
pub open spec fn u32s_at(s: Seq<u8>, at: int, n: int) -> Seq<u32> {
    Seq::new(n as nat, |i: int| u32_at(s, at + 4 * i))
}

/// The `n` numbers of eight bytes that stand in `s` from `at` on.
pub open spec fn u64s_at(s: Seq<u8>, at: int, n: int) -> Seq<u64> {
    Seq::new(n as nat, |i: int| u64_at(s, at + 8 * i))
}

/// What is read where the bytes of a number stand is the number.
pub proof fn lemma_u32_reads_back(v: u32, s: Seq<u8>, at: int)
    requires
        0 <= at,
        at + 4 <= s.len(),
        s.subrange(at, at + 4) == u32_le(v),
    ensures
        u32_at(s, at) == v,
{
    let t = s.subrange(at, at + 4);
    assert(t[0] == s[at] && t[1] == s[at + 1] && t[2] == s[at + 2] && t[3] == s[at + 3]);
    assert(v % 0x100 + (v / 0x100 % 0x100) * 0x100 + (v / 0x1_0000 % 0x100) * 0x1_0000 + (v
        / 0x100_0000) * 0x100_0000 == v);
}

/// What is read where the bytes of a number stand is the number.
pub proof fn lemma_u64_reads_back(v: u64, s: Seq<u8>, at: int)
    requires
        0 <= at,
        at + 8 <= s.len(),
        s.subrange(at, at + 8) == u64_le(v),
    ensures
        u64_at(s, at) == v,
{
    let t = s.subrange(at, at + 8);
    assert(t.subrange(0, 4) =~= u32_le((v % 0x1_0000_0000) as u32));
    assert(t.subrange(4, 8) =~= u32_le((v / 0x1_0000_0000) as u32));
    assert(s.subrange(at, at + 4) =~= t.subrange(0, 4));
    assert(s.subrange(at + 4, at + 8) =~= t.subrange(4, 8));
    lemma_u32_reads_back((v % 0x1_0000_0000) as u32, s, at);
    lemma_u32_reads_back((v / 0x1_0000_0000) as u32, s, at + 4);
}

/// The bytes of `n` numbers are four times as many.
pub proof fn lemma_u32s_le_len(values: Seq<u32>)
    ensures
        u32s_le(values).len() == 4 * values.len(),
    decreases values.len(),
{
    if values.len() > 0 {
        lemma_u32s_le_len(values.drop_last());
    }
}

/// The bytes of a number stand at its place among the bytes of several.
pub proof fn lemma_u32s_le_at(values: Seq<u32>, i: int)
    requires
        0 <= i < values.len(),
    ensures
        u32s_le(values).len() == 4 * values.len(),
        u32s_le(values).subrange(4 * i, 4 * i + 4) == u32_le(values[i]),
    decreases values.len(),
{
    lemma_u32s_le_len(values);
    lemma_u32s_le_len(values.drop_last());
    let all = u32s_le(values);
    let earlier = u32s_le(values.drop_last());
    if i == values.len() - 1 {
        assert(all.subrange(4 * i, 4 * i + 4) =~= u32_le(values[i]));
    } else {
        lemma_u32s_le_at(values.drop_last(), i);
        assert(all.subrange(4 * i, 4 * i + 4) =~= earlier.subrange(4 * i, 4 * i + 4));
    }
}

/// The bytes of `n` numbers are eight times as many.
pub proof fn lemma_u64s_le_len(values: Seq<u64>)
    ensures
        u64s_le(values).len() == 8 * values.len(),
    decreases values.len(),
{
    if values.len() > 0 {
        lemma_u64s_le_len(values.drop_last());
    }
}

/// The bytes of a number stand at its place among the bytes of several.
pub proof fn lemma_u64s_le_at(values: Seq<u64>, i: int)
    requires
        0 <= i < values.len(),
    ensures
        u64s_le(values).len() == 8 * values.len(),
        u64s_le(values).subrange(8 * i, 8 * i + 8) == u64_le(values[i]),
    decreases values.len(),
{
    lemma_u64s_le_len(values);
    lemma_u64s_le_len(values.drop_last());
    let all = u64s_le(values);
    let earlier = u64s_le(values.drop_last());
    if i == values.len() - 1 {
        assert(all.subrange(8 * i, 8 * i + 8) =~= u64_le(values[i]));
    } else {
        lemma_u64s_le_at(values.drop_last(), i);
        assert(all.subrange(8 * i, 8 * i + 8) =~= earlier.subrange(8 * i, 8 * i + 8));
    }
}

/// Numbers of four bytes are read back where their bytes stand.
pub proof fn lemma_u32s_read_back(values: Seq<u32>, s: Seq<u8>, at: int)
    requires
        0 <= at,
        at + 4 * values.len() <= s.len(),
        s.subrange(at, at + 4 * values.len()) == u32s_le(values),
    ensures
        u32s_at(s, at, values.len() as int) == values,
{
    let t = s.subrange(at, at + 4 * values.len());
    assert forall|i: int| 0 <= i < values.len() implies #[trigger] u32s_at(
        s,
        at,
        values.len() as int,
    )[i] == values[i] by {
        lemma_u32s_le_at(values, i);
        assert(s.subrange(at + 4 * i, at + 4 * i + 4) =~= t.subrange(4 * i, 4 * i + 4));
        lemma_u32_reads_back(values[i], s, at + 4 * i);
    }
    assert(u32s_at(s, at, values.len() as int) =~= values);
}

/// Numbers of eight bytes are read back where their bytes stand.
pub proof fn lemma_u64s_read_back(values: Seq<u64>, s: Seq<u8>, at: int)
    requires
        0 <= at,
        at + 8 * values.len() <= s.len(),
        s.subrange(at, at + 8 * values.len()) == u64s_le(values),
    ensures
        u64s_at(s, at, values.len() as int) == values,
{
    let t = s.subrange(at, at + 8 * values.len());
    assert forall|i: int| 0 <= i < values.len() implies #[trigger] u64s_at(
        s,
        at,
        values.len() as int,
    )[i] == values[i] by {
        lemma_u64s_le_at(values, i);
        assert(s.subrange(at + 8 * i, at + 8 * i + 8) =~= t.subrange(8 * i, 8 * i + 8));
        lemma_u64_reads_back(values[i], s, at + 8 * i);
    }
    assert(u64s_at(s, at, values.len() as int) =~= values);
}

/// The bytes of two lists of numbers, one behind the other.
pub proof fn lemma_u32s_le_concat(a: Seq<u32>, b: Seq<u32>)
    ensures
        u32s_le(a + b) == u32s_le(a) + u32s_le(b),
    decreases b.len(),
{
    if b.len() == 0 {
        assert(a + b =~= a);
        assert(u32s_le(a) + u32s_le(b) =~= u32s_le(a));
    } else {
        assert((a + b).drop_last() =~= a + b.drop_last());
        lemma_u32s_le_concat(a, b.drop_last());
        assert(u32s_le(a + b) =~= u32s_le(a) + u32s_le(b));
    }
}

/// Writes the four bytes of each number.
pub fn push_u32s_le(out: &mut Vec<u8>, values: &[u32])
    ensures
        final(out)@ == old(out)@ + u32s_le(values@),
{
    let ghost before = out@;
    let mut i: usize = 0;
    assert(before + u32s_le(values@.take(0)) =~= before);
    while i < values.len()
        invariant
            i <= values@.len(),
            out@ == before + u32s_le(values@.take(i as int)),
        decreases values@.len() - i,
    {
        assert(values@.take(i + 1).drop_last() =~= values@.take(i as int));
        push_u32_le(out, values[i]);
        assert(out@ =~= before + u32s_le(values@.take(i + 1)));
        i += 1;
    }
    assert(values@.take(i as int) =~= values@);
}

/// Reads the `n` numbers of four bytes that stand from `at` on.
pub fn get_u32s_le(data: &[u8], at: usize, n: usize) -> (r: Vec<u32>)
    requires
        at + 4 * n <= data@.len(),
    ensures
        r@ == u32s_at(data@, at as int, n as int),
{
    let len: usize = data.len();
    let mut r: Vec<u32> = Vec::new();
    let mut i: usize = 0;
    while i < n
        invariant
            i <= n,
            len == data@.len(),
            at + 4 * n <= len,
            r@.len() == i,
            forall|j: int| 0 <= j < i ==> (#[trigger] r@[j]) == u32_at(data@, at + 4 * j),
        decreases n - i,
    {
        r.push(get_u32_le(data, at + 4 * i));
        i += 1;
    }
    assert(r@ =~= u32s_at(data@, at as int, n as int));
    r
}

/// Reads the `n` numbers of eight bytes that stand from `at` on.
pub fn get_u64s_le(data: &[u8], at: usize, n: usize) -> (r: Vec<u64>)
    requires
        at + 8 * n <= data@.len(),
    ensures
        r@ == u64s_at(data@, at as int, n as int),
{
    let len: usize = data.len();
    let mut r: Vec<u64> = Vec::new();
    let mut i: usize = 0;
    while i < n
        invariant
            i <= n,
            len == data@.len(),
            at + 8 * n <= len,
            r@.len() == i,
            forall|j: int| 0 <= j < i ==> (#[trigger] r@[j]) == u64_at(data@, at + 8 * j),
        decreases n - i,
    {
        r.push(get_u64_le(data, at + 8 * i));
        i += 1;
    }
    assert(r@ =~= u64s_at(data@, at as int, n as int));
    r
}

/// Writes the four bytes of `v`.
pub fn push_u32_le(out: &mut Vec<u8>, v: u32)
    ensures
        final(out)@ == old(out)@ + u32_le(v),
{
    let ghost before = out@;
    out.push((v % 0x100) as u8);
    out.push((v / 0x100 % 0x100) as u8);
    out.push((v / 0x1_0000 % 0x100) as u8);
    out.push((v / 0x100_0000) as u8);
    assert(out@ =~= before + u32_le(v));
}

/// Writes the eight bytes of `v`.
pub fn push_u64_le(out: &mut Vec<u8>, v: u64)
    ensures
        final(out)@ == old(out)@ + u64_le(v),
{
    let ghost before = out@;
    push_u32_le(out, (v % 0x1_0000_0000) as u32);
    push_u32_le(out, (v / 0x1_0000_0000) as u32);
    assert(out@ =~= before + u64_le(v));
}

/// Reads the number whose four bytes stand at `at`.
pub fn get_u32_le(data: &[u8], at: usize) -> (v: u32)
    requires
        at + 4 <= data@.len(),
    ensures
        v == u32_at(data@, at as int),
{
    let len: usize = data.len();
    assert(at + 4 <= len);
    (data[at] as u32) + (data[at + 1] as u32) * 0x100 + (data[at + 2] as u32) * 0x1_0000 + (
    data[at + 3] as u32) * 0x100_0000
}

/// Reads the number whose eight bytes stand at `at`.
pub fn get_u64_le(data: &[u8], at: usize) -> (v: u64)
    requires
        at + 8 <= data@.len(),
    ensures
        v == u64_at(data@, at as int),
{
    let len: usize = data.len();
    assert(at + 8 <= len);
    (get_u32_le(data, at) as u64) + (get_u32_le(data, at + 4) as u64) * 0x1_0000_0000
}

} // verus!
