//! Which passages a variant of the corpus holds.
//!
//! A passage is in the sample where the hash of its document identifier falls into a bucket below a
//! threshold. One histogram of the buckets gives the size of the sample for every threshold.
use vstd::prelude::*;

use crate::json::{self, new_members, put_member, Json, JsonNumber};
use crate::json::{JsonView, NumberView};
use crate::json_parse::{self, parse_json};
use crate::text::{self, chars_of, decimal_text, is_white_space, same_text, string_of};

verus! {

/// The repository that the corpus is fetched from.
pub const HF_REPO: &'static str = "CohereLabs/msmarco-v2.1-embed-english-v3";

/// The commit that every file is fetched from.
pub const HF_REVISION: &'static str = "e78737fe92ac1b783211b705c12207ca75fcc9b7";

/// The number of components of an embedding.
pub const DIM: usize = 1024;

/// The number of shards of the corpus.
pub const SHARDS: usize = 60;

/// The number of passages of the corpus.
pub const TOTAL_PASSAGES: u64 = 113_520_750;

/// The number of neighbours in the ground truth of a query.
pub const NEIGHBOURS: usize = 1000;

/// The number of queries.
pub const QUERY_COUNT: usize = 1677;

/// The number of buckets that document identifiers are hashed into.
pub const CRC32_BUCKETS: u32 = 1_000_000;

/// The CRC-32 checksum of bytes.
pub uninterp spec fn crc32_of(data: Seq<u8>) -> u32;

/// `crc32fast::Hasher`: the checksum of the bytes, a function of them alone.
#[verifier::external_body]
fn crc32(data: &[u8]) -> (r: u32)
    ensures
        r == crc32_of(data@),
{
    let mut h = crc32fast::Hasher::new();
    h.update(data);
    h.finalize()
}

/// The bucket of a document identifier.
pub open spec fn bucket_of(docid: Seq<char>) -> u32 {
    crc32_of(vstd::utf8::encode_utf8(docid)) % CRC32_BUCKETS
}

/// The bucket that a checksum falls into.
pub fn bucket_of_checksum(checksum: u32) -> (bucket: u32)
    ensures
        bucket == checksum % CRC32_BUCKETS,
        bucket < CRC32_BUCKETS,
{
    checksum % CRC32_BUCKETS
}

/// The bucket of a document identifier: its checksum modulo the number of buckets.
pub fn crc32_bucket(docid: &str) -> (bucket: u32)
    ensures
        bucket == bucket_of(docid@),
        bucket < CRC32_BUCKETS,
{
    bucket_of_checksum(crc32(docid.as_bytes()))
}

/// What stands in front of the document identifier of a line that begins with it.
pub open spec fn docid_key() -> Seq<char> {
    "{\"docid\":"@
}

/// The part of `s` before its first quote, where it has one and no escape stands before it.
pub open spec fn before_quote(s: Seq<char>) -> Option<Seq<char>>
    decreases s.len(),
{
    if s.len() == 0 || s[0] == '\\' {
        None
    } else if s[0] == '"' {
        Some(Seq::empty())
    } else {
        match before_quote(s.skip(1)) {
            Some(rest) => Some(seq![s[0]] + rest),
            None => None,
        }
    }
}

/// The document identifier of a line that begins with it, where it is written without an escape.
pub open spec fn leading_docid(line: Seq<char>) -> Option<Seq<char>> {
    if docid_key().len() <= line.len() && line.take(docid_key().len() as int) == docid_key() {
        let rest = text::trimmed_front(line.skip(docid_key().len() as int));
        if rest.len() > 0 && rest[0] == '"' {
            before_quote(rest.skip(1))
        } else {
            None
        }
    } else {
        None
    }
}

/// Characters before the first quote are what stands before it.
proof fn lemma_before_quote(s: Seq<char>, n: int)
    requires
        0 <= n <= s.len(),
        forall|i: int| 0 <= i < n ==> s[i] != '"' && s[i] != '\\',
    ensures
        n == s.len() || s[n] == '\\' ==> before_quote(s) is None,
        n < s.len() && s[n] == '"' ==> before_quote(s) == Some(s.take(n)),
    decreases s.len(),
{
    if n == 0 {
        assert(s.take(0) =~= Seq::empty());
    } else {
        lemma_before_quote(s.skip(1), n - 1);
        assert(seq![s[0]] + s.skip(1).take(n - 1) =~= s.take(n));
    }
}

/// The document identifier of a line that begins with it; nothing where it does not or where the
/// identifier holds an escape, and the line must be parsed.
pub fn docid_in_front(line: &str) -> (r: Option<String>)
    ensures
        r is Some == leading_docid(line@) is Some,
        r matches Some(d) ==> leading_docid(line@) == Some(d@),
{
    let chars: Vec<char> = chars_of(line);
    let key: Vec<char> = chars_of("{\"docid\":");
    let n: usize = key.len();
    if chars.len() < n {
        return None;
    }
    let mut i: usize = 0;
    while i < n
        invariant
            i <= n,
            n == key@.len(),
            n <= chars@.len(),
            chars@ == line@,
            key@ == docid_key(),
            forall|j: int| 0 <= j < i ==> chars@[j] == key@[j],
        decreases n - i,
    {
        if chars[i] != key[i] {
            assert(line@.take(n as int)[i as int] != docid_key()[i as int]);
            return None;
        }
        i += 1;
    }
    assert(line@.take(n as int) =~= docid_key());
    let ghost tail = line@.skip(n as int);
    let mut from: usize = n;
    assert(chars@.skip(from as int) =~= tail);
    while from < chars.len() && is_white_space(chars[from])
        invariant
            n <= from <= chars@.len(),
            text::trimmed_front(chars@.skip(from as int)) == text::trimmed_front(tail),
        decreases chars@.len() - from,
    {
        assert(chars@.skip(from as int).skip(1) =~= chars@.skip(from + 1));
        from += 1;
    }
    let ghost rest = chars@.skip(from as int);
    assert(rest == text::trimmed_front(tail));
    if from == chars.len() || chars[from] != '"' {
        return None;
    }
    let start: usize = from + 1;
    let ghost quoted = chars@.skip(start as int);
    assert(rest.skip(1) =~= quoted);
    let mut to: usize = start;
    while to < chars.len() && chars[to] != '"' && chars[to] != '\\'
        invariant
            start <= to <= chars@.len(),
            quoted == chars@.skip(start as int),
            forall|j: int| 0 <= j < to - start ==> quoted[j] != '"' && quoted[j] != '\\',
        decreases chars@.len() - to,
    {
        to += 1;
    }
    proof {
        lemma_before_quote(quoted, to - start);
    }
    if to == chars.len() || chars[to] == '\\' {
        return None;
    }
    assert(quoted.take(to - start) =~= chars@.subrange(start as int, to as int));
    Some(string_of(&chars, start, to))
}

/// The document identifier of a parsed line, where it is an object that has one.
pub open spec fn parsed_docid(parsed: Result<JsonView, Seq<char>>) -> Option<Seq<char>> {
    match parsed {
        Ok(v) => match v.member("docid"@) {
            Some(JsonView::Text(d)) => Some(d),
            _ => None,
        },
        Err(_) => None,
    }
}

/// The document identifier of a parsed record, where it is an object that has one.
pub fn docid_in_record(record: &Json) -> (r: Option<String>)
    ensures
        r is Some == parsed_docid(Ok(record@)) is Some,
        r matches Some(d) ==> parsed_docid(Ok(record@)) == Some(d@),
{
    match record.get("docid") {
        Some(v) => match v.as_str() {
            Some(d) => Some(d.to_owned()),
            None => None,
        },
        None => None,
    }
}

/// The document identifier of a line: read off its front where it stands there without an escape, else
/// out of the parsed line.
pub open spec fn docid_of(line: Seq<char>) -> Option<Seq<char>> {
    match leading_docid(line) {
        Some(d) => Some(d),
        None => parsed_docid(json_parse::parsed_json(line)),
    }
}

/// The document identifier of a line.
pub fn extract_docid(line: &str) -> (r: Option<String>)
    ensures
        r is Some == docid_of(line@) is Some,
        r matches Some(d) ==> docid_of(line@) == Some(d@),
{
    match docid_in_front(line) {
        Some(d) => Some(d),
        None => match parse_json(line) {
            Ok(record) => docid_in_record(&record),
            Err(_) => None,
        },
    }
}

/// Whether a document is in the sample below a threshold.
pub open spec fn in_sample(docid: Seq<char>, threshold: u32) -> bool {
    bucket_of(docid) < threshold
}

/// Whether a document is in the sample below a threshold.
pub fn keeps(docid: &str, threshold: u32) -> (r: bool)
    ensures
        r == in_sample(docid@, threshold),
{
    crc32_bucket(docid) < threshold
}

/// The samples nest: what is in one is in every one with a higher threshold.
pub proof fn samples_nest(docid: Seq<char>, lower: u32, higher: u32)
    requires
        lower <= higher,
        in_sample(docid, lower),
    ensures
        in_sample(docid, higher),
{
}

/// The sum of the first `n` counts.
pub open spec fn sum_below(counts: Seq<u64>, n: int) -> int
    decreases n,
{
    if n <= 0 {
        0
    } else {
        sum_below(counts, n - 1) + counts[n - 1]
    }
}

/// How many of the documents fall into bucket `b`.
pub open spec fn tally(docids: Seq<Seq<char>>, b: int) -> int
    decreases docids.len(),
{
    if docids.len() == 0 {
        0
    } else {
        tally(docids.drop_last(), b) + if bucket_of(docids.last()) == b {
            1int
        } else {
            0int
        }
    }
}

/// The number of documents in each bucket.
pub struct BucketHistogram {
    counts: Vec<u64>,
}

impl BucketHistogram {
    /// The number of documents in each bucket.
    pub closed spec fn counts(&self) -> Seq<u64> {
        self.counts@
    }

    /// There is a count for each bucket, and their sum can be counted.
    pub open spec fn well_formed(&self) -> bool {
        &&& self.counts().len() == CRC32_BUCKETS
        &&& sum_below(self.counts(), CRC32_BUCKETS as int) <= u64::MAX
    }

    /// Whether the counts are those of the documents.
    pub open spec fn counts_exactly(&self, docids: Seq<Seq<char>>) -> bool {
        forall|b: int| 0 <= b < CRC32_BUCKETS ==> #[trigger] self.counts()[b] == tally(docids, b)
    }

    /// A histogram of nothing.
    pub fn new() -> (r: Self)
        ensures
            r.well_formed(),
            forall|b: int| 0 <= b < CRC32_BUCKETS ==> #[trigger] r.counts()[b] == 0,
            r.counts_exactly(Seq::empty()),
    {
        let counts: Vec<u64> = vec![0; CRC32_BUCKETS as usize];
        proof {
            lemma_sum_of_zeros(counts@, CRC32_BUCKETS as int);
        }
        BucketHistogram { counts }
    }

    /// Counts a document.
    pub fn add(&mut self, docid: &str)
        requires
            old(self).well_formed(),
            sum_below(old(self).counts(), CRC32_BUCKETS as int) < u64::MAX,
        ensures
            final(self).well_formed(),
            final(self).counts() == old(self).counts().update(
                bucket_of(docid@) as int,
                (old(self).counts()[bucket_of(docid@) as int] + 1) as u64,
            ),
            sum_below(final(self).counts(), CRC32_BUCKETS as int) == sum_below(
                old(self).counts(),
                CRC32_BUCKETS as int,
            ) + 1,
    {
        let b: usize = crc32_bucket(docid) as usize;
        proof {
            lemma_sum_bounds(self.counts@, b as int, CRC32_BUCKETS as int);
            lemma_sum_of_update(
                self.counts@,
                b as int,
                (self.counts@[b as int] + 1) as u64,
                CRC32_BUCKETS as int,
            );
        }
        let n: u64 = self.counts[b] + 1;
        self.counts.set(b, n);
    }

    /// Adds the counts of another histogram, in whatever order the parts of the corpus are read.
    pub fn merge(&mut self, other: &BucketHistogram)
        requires
            old(self).well_formed(),
            other.well_formed(),
            sum_below(old(self).counts(), CRC32_BUCKETS as int) + sum_below(
                other.counts(),
                CRC32_BUCKETS as int,
            ) <= u64::MAX,
        ensures
            final(self).well_formed(),
            forall|b: int|
                0 <= b < CRC32_BUCKETS ==> #[trigger] final(self).counts()[b] == old(
                    self,
                ).counts()[b] + other.counts()[b],
    {
        let ghost before = self.counts@;
        let ghost all = CRC32_BUCKETS as int;
        let mut i: usize = 0;
        while i < self.counts.len()
            invariant
                i <= self.counts@.len(),
                all == CRC32_BUCKETS as int,
                self.counts@.len() == all,
                before.len() == all,
                other.counts@.len() == all,
                sum_below(before, all) + sum_below(other.counts@, all) <= u64::MAX,
                forall|b: int|
                    0 <= b < i ==> #[trigger] self.counts@[b] == before[b] + other.counts@[b],
                forall|b: int| i <= b < all ==> #[trigger] self.counts@[b] == before[b],
            decreases self.counts@.len() - i,
        {
            proof {
                lemma_sum_bounds(before, i as int, all);
                lemma_sum_bounds(other.counts@, i as int, all);
            }
            let n: u64 = self.counts[i] + other.counts[i];
            self.counts.set(i, n);
            i += 1;
        }
        proof {
            lemma_sum_of_sums(before, other.counts@, self.counts@, all);
        }
    }

    /// The number of documents.
    pub fn total(&self) -> (n: u64)
        requires
            self.well_formed(),
        ensures
            n == sum_below(self.counts(), CRC32_BUCKETS as int),
    {
        self.count_below(CRC32_BUCKETS)
    }

    /// The number of documents in the buckets below a threshold.
    pub fn count_below(&self, threshold: u32) -> (n: u64)
        requires
            self.well_formed(),
        ensures
            n == sum_below(self.counts(), smaller(threshold as int, CRC32_BUCKETS as int)),
    {
        let to: usize = if threshold < CRC32_BUCKETS {
            threshold as usize
        } else {
            CRC32_BUCKETS as usize
        };
        let mut n: u64 = 0;
        let mut i: usize = 0;
        while i < to
            invariant
                i <= to <= CRC32_BUCKETS,
                self.well_formed(),
                self.counts() == self.counts@,
                n == sum_below(self.counts@, i as int),
            decreases to - i,
        {
            proof {
                lemma_sum_monotone(self.counts@, i + 1, CRC32_BUCKETS as int);
            }
            n = n + self.counts[i];
            i += 1;
        }
        n
    }

    /// The threshold whose sample is closest in size to `target`, and that size. Of two that are
    /// equally close, the one with the smaller sample.
    pub fn threshold_for(&self, target: u64) -> (r: (u32, u64))
        requires
            self.well_formed(),
        ensures
            r.0 <= CRC32_BUCKETS,
            r.1 == sum_below(self.counts(), r.0 as int),
            r.0 == closest_threshold(self.counts(), target as int),
            forall|t: int|
                0 <= t <= CRC32_BUCKETS ==> distance(r.1 as int, target as int) <= distance(
                    #[trigger] sum_below(self.counts(), t),
                    target as int,
                ),
    {
        let mut lo: u32 = 0;
        let mut hi: u32 = CRC32_BUCKETS;
        proof {
            lemma_first_reaching(self.counts(), target as int, 0);
        }
        while lo < hi
            invariant
                lo <= hi <= CRC32_BUCKETS,
                self.well_formed(),
                lo <= first_reaching(self.counts(), target as int, 0) <= hi,
            decreases hi - lo,
        {
            let mid: u32 = lo + (hi - lo) / 2;
            proof {
                lemma_first_reaching(self.counts(), target as int, 0);
                let first = first_reaching(self.counts(), target as int, 0);
                if first <= mid {
                    lemma_sum_monotone(self.counts(), first, mid as int);
                }
            }
            if self.count_below(mid) < target {
                lo = mid + 1;
            } else {
                hi = mid;
            }
        }
        proof {
            lemma_first_reaching(self.counts(), target as int, 0);
            lemma_closest(self.counts(), target as int);
        }
        let up: (u32, u64) = (lo, self.count_below(lo));
        if lo == 0 {
            return up;
        }
        let down: (u32, u64) = (lo - 1, self.count_below(lo - 1));
        let below: u64 = if target < down.1 {
            down.1 - target
        } else {
            target - down.1
        };
        let above: u64 = if target < up.1 {
            up.1 - target
        } else {
            target - up.1
        };
        if below <= above {
            down
        } else {
            up
        }
    }

    /// The histogram as a record: how many buckets and passages there are, and for each target the
    /// threshold that comes closest and the size of its sample.
    pub fn to_json(&self, targets: &[u64]) -> (r: Json)
        requires
            self.well_formed(),
        ensures
            r@ == record(self.counts(), targets@),
    {
        broadcast use {json::lemma_object_view, json::lemma_array_view};

        let mut rows: Vec<Json> = Vec::new();
        let mut i: usize = 0;
        while i < targets.len()
            invariant
                i <= targets@.len(),
                self.well_formed(),
                rows@.len() == i,
                forall|j: int|
                    0 <= j < i ==> (#[trigger] rows@[j])@ == target_record(
                        self.counts(),
                        targets@[j],
                    ),
            decreases targets@.len() - i,
        {
            let found: (u32, u64) = self.threshold_for(targets[i]);
            let mut row: Vec<(String, Json)> = new_members();
            put_member(&mut row, "target", Json::Number(JsonNumber::PosInt(targets[i])));
            put_member(&mut row, "threshold", Json::Number(JsonNumber::PosInt(found.0 as u64)));
            put_member(&mut row, "realized", Json::Number(JsonNumber::PosInt(found.1)));
            let entry: Json = Json::Object(row);
            proof {
                json::lemma_object_view(row);
                assert(entry@ == target_record(self.counts(), targets@[i as int]));
            }
            rows.push(entry);
            i += 1;
        }
        assert(json::items_view(rows@) =~= Seq::new(
            targets@.len(),
            |j: int| target_record(self.counts(), targets@[j]),
        ));
        let mut members: Vec<(String, Json)> = new_members();
        put_member(
            &mut members,
            "buckets",
            Json::Number(JsonNumber::PosInt(CRC32_BUCKETS as u64)),
        );
        put_member(
            &mut members,
            "total_passages",
            Json::Number(JsonNumber::PosInt(self.total())),
        );
        put_member(&mut members, "targets", Json::Array(rows));
        Json::Object(members)
    }
}

/// The record of one target.
pub open spec fn target_record(counts: Seq<u64>, target: u64) -> JsonView {
    let threshold = closest_threshold(counts, target as int);
    JsonView::Object(
        json::put(
            json::put(
                json::put(
                    json::no_members(),
                    "target"@,
                    JsonView::Number(NumberView::PosInt(target)),
                ),
                "threshold"@,
                JsonView::Number(NumberView::PosInt(threshold as u64)),
            ),
            "realized"@,
            JsonView::Number(NumberView::PosInt(sum_below(counts, threshold) as u64)),
        ),
    )
}

/// The record of a histogram.
pub open spec fn record(counts: Seq<u64>, targets: Seq<u64>) -> JsonView {
    JsonView::Object(
        json::put(
            json::put(
                json::put(
                    json::no_members(),
                    "buckets"@,
                    JsonView::Number(NumberView::PosInt(CRC32_BUCKETS as u64)),
                ),
                "total_passages"@,
                JsonView::Number(
                    NumberView::PosInt(sum_below(counts, CRC32_BUCKETS as int) as u64),
                ),
            ),
            "targets"@,
            JsonView::Array(
                Seq::new(targets.len(), |j: int| target_record(counts, targets[j])),
            ),
        ),
    )
}

/// The smaller of two numbers.
pub open spec fn smaller(a: int, b: int) -> int {
    if a < b {
        a
    } else {
        b
    }
}

/// How far two numbers are apart.
pub open spec fn distance(a: int, b: int) -> int {
    if a < b {
        b - a
    } else {
        a - b
    }
}

/// The first threshold from `from` on whose sample reaches `target`, or the last threshold of all.
pub open spec fn first_reaching(counts: Seq<u64>, target: int, from: int) -> int
    decreases CRC32_BUCKETS - from,
{
    if from >= CRC32_BUCKETS || sum_below(counts, from) >= target {
        from
    } else {
        first_reaching(counts, target, from + 1)
    }
}

/// The threshold whose sample is closest in size to `target`: the first that reaches it, or the one
/// before where its sample is at least as close.
pub open spec fn closest_threshold(counts: Seq<u64>, target: int) -> int {
    let up = first_reaching(counts, target, 0);
    if up == 0 {
        up
    } else if distance(sum_below(counts, up - 1), target) <= distance(
        sum_below(counts, up),
        target,
    ) {
        up - 1
    } else {
        up
    }
}

/// Counts of nothing have the sum zero.
proof fn lemma_sum_of_zeros(counts: Seq<u64>, n: int)
    requires
        0 <= n <= counts.len(),
        forall|b: int| 0 <= b < counts.len() ==> #[trigger] counts[b] == 0,
    ensures
        sum_below(counts, n) == 0,
    decreases n,
{
    if n > 0 {
        lemma_sum_of_zeros(counts, n - 1);
    }
}

/// A sum over more counts is not smaller.
pub proof fn lemma_sum_monotone(counts: Seq<u64>, m: int, n: int)
    requires
        0 <= m <= n <= counts.len(),
    ensures
        0 <= sum_below(counts, m) <= sum_below(counts, n),
    decreases n,
{
    if m < n {
        lemma_sum_monotone(counts, m, n - 1);
    } else if n > 0 {
        lemma_sum_monotone(counts, m - 1, n - 1);
    }
}

/// No count is larger than the sum.
proof fn lemma_sum_bounds(counts: Seq<u64>, b: int, n: int)
    requires
        0 <= b < n <= counts.len(),
    ensures
        counts[b] <= sum_below(counts, n),
{
    lemma_sum_monotone(counts, b + 1, n);
    lemma_sum_monotone(counts, 0, b);
}

/// A changed count changes the sum by as much.
proof fn lemma_sum_of_update(counts: Seq<u64>, b: int, v: u64, n: int)
    requires
        0 <= b < counts.len(),
        0 <= n <= counts.len(),
    ensures
        sum_below(counts.update(b, v), n) == sum_below(counts, n) + if b < n {
            v - counts[b]
        } else {
            0
        },
    decreases n,
{
    if n > 0 {
        lemma_sum_of_update(counts, b, v, n - 1);
    }
}

/// The sum of sums is the sum of the sums.
proof fn lemma_sum_of_sums(a: Seq<u64>, b: Seq<u64>, c: Seq<u64>, n: int)
    requires
        0 <= n <= a.len(),
        a.len() == b.len() == c.len(),
        forall|i: int| 0 <= i < c.len() ==> #[trigger] c[i] == a[i] + b[i],
    ensures
        sum_below(c, n) == sum_below(a, n) + sum_below(b, n),
    decreases n,
{
    if n > 0 {
        lemma_sum_of_sums(a, b, c, n - 1);
    }
}

/// The first threshold that reaches the target is the first.
proof fn lemma_first_reaching(counts: Seq<u64>, target: int, from: int)
    requires
        counts.len() == CRC32_BUCKETS,
        0 <= from <= CRC32_BUCKETS,
    ensures
        from <= first_reaching(counts, target, from) <= CRC32_BUCKETS,
        first_reaching(counts, target, from) < CRC32_BUCKETS ==> sum_below(
            counts,
            first_reaching(counts, target, from),
        ) >= target,
        forall|t: int|
            from <= t < first_reaching(counts, target, from) ==> #[trigger] sum_below(counts, t)
                < target,
    decreases CRC32_BUCKETS - from,
{
    if from < CRC32_BUCKETS && sum_below(counts, from) < target {
        lemma_first_reaching(counts, target, from + 1);
    }
}

/// No threshold has a sample that is closer in size to the target than the closest.
proof fn lemma_closest(counts: Seq<u64>, target: int)
    requires
        counts.len() == CRC32_BUCKETS,
    ensures
        0 <= closest_threshold(counts, target) <= CRC32_BUCKETS,
        forall|t: int|
            0 <= t <= CRC32_BUCKETS ==> distance(
                sum_below(counts, closest_threshold(counts, target)),
                target,
            ) <= distance(#[trigger] sum_below(counts, t), target),
{
    let up = first_reaching(counts, target, 0);
    lemma_first_reaching(counts, target, 0);
    assert forall|t: int| 0 <= t <= CRC32_BUCKETS implies distance(
        sum_below(counts, closest_threshold(counts, target)),
        target,
    ) <= distance(#[trigger] sum_below(counts, t), target) by {
        if t < up {
            lemma_sum_monotone(counts, t, up - 1);
        } else {
            lemma_sum_monotone(counts, up, t);
        }
        if up > 0 {
            assert(sum_below(counts, up - 1) < target);
        }
    }
}

/// Merging the histograms of two parts of the corpus gives the histogram of both: it does not matter
/// how the corpus is parted, or in what order.
pub proof fn merged_histograms_count_both(
    a: Seq<Seq<char>>,
    b: Seq<Seq<char>>,
    bucket: int,
)
    ensures
        tally(a + b, bucket) == tally(a, bucket) + tally(b, bucket),
    decreases b.len(),
{
    if b.len() == 0 {
        assert(a + b =~= a);
    } else {
        assert((a + b).drop_last() =~= a + b.drop_last());
        merged_histograms_count_both(a, b.drop_last(), bucket);
    }
}

/// Counting a document adds one in its bucket and nothing elsewhere.
pub proof fn counted_documents_are_tallied(docids: Seq<Seq<char>>, docid: Seq<char>, bucket: int)
    ensures
        tally(docids.push(docid), bucket) == tally(docids, bucket) + if bucket_of(docid)
            == bucket {
            1int
        } else {
            0int
        },
{
    assert(docids.push(docid).drop_last() =~= docids);
}

/// A size in which the dataset is registered.
#[derive(Debug, Clone, Copy, PartialEq, Eq)]
pub struct Variant {
    pub dataset_name: &'static str,
    pub dir: &'static str,
    pub limit: u64,
    pub threshold: u32,
}

/// The variant of a hundred thousand passages.
pub fn variant_100k() -> (v: Variant)
    ensures
        v.dataset_name@ == "msmarco-cohere-1024-100K-cosine"@,
        v.dir@ == "msmarco-cohere-1024/crc32-t886"@,
        v.limit == 99_964,
        v.threshold == 886,
{
    Variant {
        dataset_name: "msmarco-cohere-1024-100K-cosine",
        dir: "msmarco-cohere-1024/crc32-t886",
        limit: 99_964,
        threshold: 886,
    }
}

/// The variant of a million passages.
pub fn variant_1m() -> (v: Variant)
    ensures
        v.dataset_name@ == "msmarco-cohere-1024-1M-cosine"@,
        v.dir@ == "msmarco-cohere-1024/crc32-t8805"@,
        v.limit == 1_000_044,
        v.threshold == 8_805,
{
    Variant {
        dataset_name: "msmarco-cohere-1024-1M-cosine",
        dir: "msmarco-cohere-1024/crc32-t8805",
        limit: 1_000_044,
        threshold: 8_805,
    }
}

/// The variant of ten million passages.
pub fn variant_10m() -> (v: Variant)
    ensures
        v.dataset_name@ == "msmarco-cohere-1024-10M-cosine"@,
        v.dir@ == "msmarco-cohere-1024/crc32-t88075"@,
        v.limit == 9_999_959,
        v.threshold == 88_075,
{
    Variant {
        dataset_name: "msmarco-cohere-1024-10M-cosine",
        dir: "msmarco-cohere-1024/crc32-t88075",
        limit: 9_999_959,
        threshold: 88_075,
    }
}

/// Every registered size, the smallest first. The thresholds ascend, so each sample is inside the
/// next.
pub fn variants() -> (r: Vec<Variant>)
    ensures
        r@.len() == 3,
        r@[0].dataset_name@ == "msmarco-cohere-1024-100K-cosine"@,
        r@[0].dir@ == "msmarco-cohere-1024/crc32-t886"@,
        r@[0].limit == 99_964,
        r@[0].threshold == 886,
        r@[1].dataset_name@ == "msmarco-cohere-1024-1M-cosine"@,
        r@[1].dir@ == "msmarco-cohere-1024/crc32-t8805"@,
        r@[1].limit == 1_000_044,
        r@[1].threshold == 8_805,
        r@[2].dataset_name@ == "msmarco-cohere-1024-10M-cosine"@,
        r@[2].dir@ == "msmarco-cohere-1024/crc32-t88075"@,
        r@[2].limit == 9_999_959,
        r@[2].threshold == 88_075,
{
    let mut r: Vec<Variant> = Vec::new();
    r.push(variant_100k());
    r.push(variant_1m());
    r.push(variant_10m());
    r
}

/// The registered size of that name.
pub fn variant(dataset_name: &str) -> (r: Option<Variant>)
    ensures
        r is Some <==> dataset_name@ == "msmarco-cohere-1024-100K-cosine"@ || dataset_name@
            == "msmarco-cohere-1024-1M-cosine"@ || dataset_name@
            == "msmarco-cohere-1024-10M-cosine"@,
        r matches Some(v) ==> v.dataset_name@ == dataset_name@,
        r matches Some(v) ==> (v.dataset_name@ == "msmarco-cohere-1024-100K-cosine"@ && v.dir@
            == "msmarco-cohere-1024/crc32-t886"@ && v.limit == 99_964 && v.threshold == 886) || (
        v.dataset_name@ == "msmarco-cohere-1024-1M-cosine"@ && v.dir@
            == "msmarco-cohere-1024/crc32-t8805"@ && v.limit == 1_000_044 && v.threshold == 8_805)
            || (v.dataset_name@ == "msmarco-cohere-1024-10M-cosine"@ && v.dir@
            == "msmarco-cohere-1024/crc32-t88075"@ && v.limit == 9_999_959 && v.threshold
            == 88_075),
{
    if same_text(dataset_name, "msmarco-cohere-1024-100K-cosine") {
        Some(variant_100k())
    } else if same_text(dataset_name, "msmarco-cohere-1024-1M-cosine") {
        Some(variant_1m())
    } else if same_text(dataset_name, "msmarco-cohere-1024-10M-cosine") {
        Some(variant_10m())
    } else {
        None
    }
}

/// The name of a shard, without its extension: its number has two digits at least.
pub open spec fn stem(shard: nat) -> Seq<char> {
    "msmarco_v2.1_doc_segmented_"@ + if shard < 10 {
        "0"@ + text::decimal(shard)
    } else {
        text::decimal(shard)
    }
}

/// The name of a shard, without its extension.
pub fn shard_stem(shard: usize) -> (r: String)
    ensures
        r@ == stem(shard as nat),
{
    let mut r: String = "msmarco_v2.1_doc_segmented_".to_owned();
    if shard < 10 {
        r.append("0");
    }
    r.append(decimal_text(shard as u64).as_str());
    assert(r@ =~= stem(shard as nat));
    r
}

/// The address below which the files of the pinned commit stand.
pub open spec fn pinned_base() -> Seq<char> {
    "https://huggingface.co/datasets/"@ + HF_REPO@ + "/resolve/"@ + HF_REVISION@
}

/// The address below which the files of the pinned commit stand.
fn base_url() -> (r: String)
    ensures
        r@ == pinned_base(),
{
    let mut r: String = "https://huggingface.co/datasets/".to_owned();
    r.append(HF_REPO);
    r.append("/resolve/");
    r.append(HF_REVISION);
    r
}

/// The address of the embeddings of a shard.
pub fn npy_url(shard: usize) -> (r: String)
    ensures
        r@ == pinned_base() + "/passages_npy/"@ + stem(shard as nat) + ".npy"@,
{
    let mut r: String = base_url();
    r.append("/passages_npy/");
    r.append(shard_stem(shard).as_str());
    r.append(".npy");
    r
}

/// The address of the metadata of a shard.
pub fn jsonl_url(shard: usize) -> (r: String)
    ensures
        r@ == pinned_base() + "/passages_jsonl/"@ + stem(shard as nat) + ".json.gz"@,
{
    let mut r: String = base_url();
    r.append("/passages_jsonl/");
    r.append(shard_stem(shard).as_str());
    r.append(".json.gz");
    r
}

/// The address of the queries.
pub fn queries_url() -> (r: String)
    ensures
        r@ == pinned_base() + "/queries_jsonl/queries.jsonl.gz"@,
{
    let mut r: String = base_url();
    r.append("/queries_jsonl/queries.jsonl.gz");
    r
}

/// The threshold that is chosen gives the sample whose size is closest to the target, above it or below, and
/// of samples that are equally close the smallest.
pub proof fn the_closest_sample_is_chosen(counts: Seq<u64>, target: int, t: int)
    requires
        counts.len() == CRC32_BUCKETS,
        0 <= t <= CRC32_BUCKETS,
    ensures
        0 <= closest_threshold(counts, target) <= CRC32_BUCKETS,
        ({
            let chosen = sum_below(counts, closest_threshold(counts, target));
            let other = sum_below(counts, t);
            &&& other <= target && chosen <= target ==> other <= chosen
            &&& other >= target && chosen >= target ==> other >= chosen
            &&& other < target < chosen ==> chosen - target < target - other
            &&& chosen < target < other ==> target - chosen <= other - target
        }),
{
    lemma_closest(counts, target);
    lemma_first_reaching(counts, target, 0);
    let up = first_reaching(counts, target, 0);
    let chosen = closest_threshold(counts, target);
    assert(distance(sum_below(counts, chosen), target) <= distance(sum_below(counts, t), target));
    if t < up {
        lemma_sum_monotone(counts, t, up - 1);
    } else {
        lemma_sum_monotone(counts, up, t);
    }
}

/// A document is kept below a threshold exactly where its bucket is below it: below no threshold nothing is
/// kept, and below the number of buckets everything is.
pub proof fn documents_are_kept_by_their_bucket(docid: Seq<char>, threshold: u32)
    ensures
        in_sample(docid, threshold) <==> crc32_of(vstd::utf8::encode_utf8(docid)) % 1_000_000
            < threshold,
        !in_sample(docid, 0),
        in_sample(docid, 1_000_000),
{
}

} // verus!
