//! Datasets of vectors with payloads and queries beside them, one JSON record to a line.
use vstd::prelude::*;

use crate::json::{self, Json, JsonView};
use crate::json_parse::{self, parse_json};
use crate::query_filter::QueryConditions;
use crate::readers::metadata::{self, parse_metadata_from_json, MetadataItem};
use crate::text::{self, decimal_text};

verus! {

/// Whether a line holds nothing but white space.
pub open spec fn blank(line: Seq<char>) -> bool {
    text::trimmed(line).len() == 0
}

/// Whether a line holds nothing but white space. A payload on such a line is none; a query is skipped.
pub fn is_blank(line: &str) -> (r: bool)
    ensures
        r == blank(line@),
{
    let chars: Vec<char> = text::chars_of(line);
    let n: usize = chars.len();
    let (from, to): (usize, usize) = text::trim_range(chars.as_slice(), 0, n);
    assert(line@.subrange(0, n as int) =~= line@);
    from == to
}

/// What is said of payloads that are not as many as the vectors.
pub open spec fn count_error(payloads: nat, vectors: nat) -> Seq<char> {
    "Metadata count ("@
        + text::decimal(payloads)
        + ") doesn't match vector count ("@
        + text::decimal(vectors)
        + ")"@
}

/// What is said of payloads that are not as many as the vectors.
fn new_count_error(payloads: u64, vectors: u64) -> (m: String)
    ensures
        m@ == count_error(payloads as nat, vectors as nat),
{
    let mut m: String = "Metadata count (".to_owned();
    m.append(decimal_text(payloads).as_str());
    m.append(") doesn't match vector count (");
    m.append(decimal_text(vectors).as_str());
    m.append(")");
    m
}

/// Checks that there are as many payloads as vectors, where there are payloads.
pub fn check_payloads(payloads: Option<usize>, vectors: usize) -> (r: Result<(), String>)
    ensures
        match payloads {
            Some(n) => if n == vectors {
                r is Ok
            } else {
                r matches Err(e) && e@ == count_error(n as nat, vectors as nat)
            },
            None => r is Ok,
        },
{
    match payloads {
        Some(n) => if n == vectors {
            Ok(())
        } else {
            Err(new_count_error(n as u64, vectors as u64))
        },
        None => Ok(()),
    }
}

/// The numbers of the vectors of a file: they count from zero.
pub fn sequential_ids(count: usize) -> (r: Vec<i64>)
    requires
        count <= i64::MAX,
    ensures
        r@ == Seq::new(count as nat, |i: int| i as i64),
{
    let mut r: Vec<i64> = Vec::new();
    let mut i: usize = 0;
    while i < count
        invariant
            i <= count,
            count <= i64::MAX,
            r@.len() == i,
            forall|j: int| 0 <= j < i ==> #[trigger] r@[j] == j as i64,
        decreases count - i,
    {
        r.push(i as i64);
        i += 1;
    }
    assert(r@ =~= Seq::new(count as nat, |k: int| k as i64));
    r
}

/// The first `n` items that are numbers.
pub open spec fn numbers(items: Seq<JsonView>, n: int) -> Seq<JsonView>
    decreases n,
{
    if n <= 0 {
        Seq::empty()
    } else if items[n - 1] is Number {
        numbers(items, n - 1).push(items[n - 1])
    } else {
        numbers(items, n - 1)
    }
}

/// The first `n` items that are whole numbers of 64 bits.
pub open spec fn whole_numbers(items: Seq<JsonView>, n: int) -> Seq<i64>
    decreases n,
{
    if n <= 0 {
        Seq::empty()
    } else {
        match items[n - 1].as_int() {
            Some(x) => if i64::MIN <= x <= i64::MAX {
                whole_numbers(items, n - 1).push(x as i64)
            } else {
                whole_numbers(items, n - 1)
            },
            None => whole_numbers(items, n - 1),
        }
    }
}

/// One query: the numbers of its vector, its true neighbours, and its conditions where it declares any.
pub struct QueryRow {
    pub query: Vec<Json>,
    pub neighbors: Vec<i64>,
    pub conditions: Option<Json>,
}

/// The neighbours that a record lists; none where it has no list.
pub open spec fn neighbors_of(row: JsonView) -> Seq<i64> {
    match row.member("closest_ids"@) {
        Some(JsonView::Array(items)) => whole_numbers(items, items.len() as int),
        _ => Seq::empty(),
    }
}

/// The conditions of a record, where it has any; a null is one.
pub open spec fn is_condition_of(c: Option<Json>, row: JsonView) -> bool {
    match row.member("conditions"@) {
        Some(v) => c matches Some(j) && j@ == v,
        None => c is None,
    }
}

/// Whether a record is read as a query.
pub open spec fn reads_as(row: JsonView, q: QueryRow) -> bool {
    &&& row.member("query"@) matches Some(JsonView::Array(items))
    &&& json::items_view(q.query@) == numbers(items, items.len() as int)
    &&& q.neighbors@ == neighbors_of(row)
    &&& is_condition_of(q.conditions, row)
}

/// Whether a record has a vector.
pub open spec fn has_query(row: JsonView) -> bool {
    row.member("query"@) matches Some(JsonView::Array(_))
}

/// Reads the record of a query. One without a vector is an error.
pub fn read_query_row(row: &Json) -> (r: Result<QueryRow, String>)
    ensures
        has_query(row@) ==> (r matches Ok(q) && reads_as(row@, q)),
        !has_query(row@) ==> (r matches Err(e) && e@ == "Missing 'query' field in tests.jsonl"@),
{
    broadcast use json::lemma_array_view;

    let items: &Vec<Json> = match row.get("query") {
        Some(v) => match v.as_array() {
            Some(items) => items,
            None => return Err("Missing 'query' field in tests.jsonl".to_owned()),
        },
        None => return Err("Missing 'query' field in tests.jsonl".to_owned()),
    };
    let ghost views = json::items_view(items@);
    let mut query: Vec<Json> = Vec::new();
    let mut i: usize = 0;
    assert(json::items_view(query@) =~= Seq::empty());
    while i < items.len()
        invariant
            i <= items@.len(),
            views == json::items_view(items@),
            json::items_view(query@) == numbers(views, i as int),
        decreases items@.len() - i,
    {
        assert(views[i as int] == items@[i as int]@);
        let ghost before = json::items_view(query@);
        let is_number: bool = match &items[i] {
            Json::Number(_) => true,
            _ => false,
        };
        if is_number {
            let copy: Json = items[i].clone();
            query.push(copy);
            assert(json::items_view(query@) =~= before.push(views[i as int]));
        }
        i += 1;
    }
    let mut neighbors: Vec<i64> = Vec::new();
    if let Some(v) = row.get("closest_ids") {
        if let Some(ids) = v.as_array() {
            let ghost id_views = json::items_view(ids@);
            let mut k: usize = 0;
            while k < ids.len()
                invariant
                    k <= ids@.len(),
                    id_views == json::items_view(ids@),
                    neighbors@ == whole_numbers(id_views, k as int),
                decreases ids@.len() - k,
            {
                assert(id_views[k as int] == ids@[k as int]@);
                if let Some(x) = ids[k].as_i64() {
                    neighbors.push(x);
                }
                k += 1;
            }
        }
    }
    let conditions: Option<Json> = match row.get("conditions") {
        Some(c) => Some(c.clone()),
        None => None,
    };
    Ok(QueryRow { query, neighbors, conditions })
}

/// The records of the lines of queries, or what is wrong with the first line that is no query: it is no
/// JSON, or has no vector. Blank lines are skipped.
pub open spec fn query_records(lines: Seq<Seq<char>>) -> Result<Seq<JsonView>, Seq<char>>
    decreases lines.len(),
{
    if lines.len() == 0 {
        Ok(Seq::empty())
    } else {
        match query_records(lines.drop_last()) {
            Err(e) => Err(e),
            Ok(rows) => if blank(lines.last()) {
                Ok(rows)
            } else {
                match json_parse::parsed_json(lines.last()) {
                    Err(e) => Err("Failed to parse tests.jsonl: "@ + e),
                    Ok(row) => if has_query(row) {
                        Ok(rows.push(row))
                    } else {
                        Err("Missing 'query' field in tests.jsonl"@)
                    },
                }
            },
        }
    }
}

/// An error among the first lines is the error of all.
proof fn lemma_query_error(lines: Seq<Seq<char>>, n: int)
    requires
        0 <= n <= lines.len(),
        query_records(lines.take(n)) is Err,
    ensures
        query_records(lines) == query_records(lines.take(n)),
    decreases lines.len() - n,
{
    if n < lines.len() {
        assert(lines.take(n + 1).drop_last() =~= lines.take(n));
        lemma_query_error(lines, n + 1);
    } else {
        assert(lines.take(n) =~= lines);
    }
}

/// Whether a line holds a query, or nothing.
pub open spec fn query_or_blank(line: Seq<char>) -> bool {
    blank(line) || (json_parse::parsed_json(line) matches Ok(row) && has_query(row))
}

/// What is said of a line that holds no query.
pub open spec fn no_query_error(line: Seq<char>) -> Seq<char> {
    match json_parse::parsed_json(line) {
        Err(e) => "Failed to parse tests.jsonl: "@ + e,
        Ok(_) => "Missing 'query' field in tests.jsonl"@,
    }
}

/// Queries are read where every line is blank or holds one, and then there are no more of them than lines;
/// otherwise the first line that does neither is the error, whatever stands behind it.
pub proof fn the_first_line_without_a_query_is_the_error(lines: Seq<Seq<char>>)
    ensures
        match query_records(lines) {
            Ok(rows) => rows.len() <= lines.len() && forall|i: int|
                0 <= i < lines.len() ==> query_or_blank(#[trigger] lines[i]),
            Err(e) => exists|i: int|
                0 <= i < lines.len() && !query_or_blank(#[trigger] lines[i]) && e == no_query_error(
                    lines[i],
                ) && forall|j: int| 0 <= j < i ==> query_or_blank(#[trigger] lines[j]),
        },
    decreases lines.len(),
{
    if lines.len() > 0 {
        let front = lines.drop_last();
        let n = front.len() as int;
        the_first_line_without_a_query_is_the_error(front);
        match query_records(front) {
            Ok(_) => {
                assert forall|j: int| 0 <= j < n implies query_or_blank(#[trigger] lines[j]) by {
                    assert(front[j] == lines[j]);
                }
                assert(lines[n] == lines.last());
            },
            Err(e) => {
                let i = choose|i: int|
                    0 <= i < front.len() && !query_or_blank(#[trigger] front[i]) && e
                        == no_query_error(front[i]) && forall|j: int|
                        0 <= j < i ==> query_or_blank(#[trigger] front[j]);
                assert(lines[i] == front[i]);
                assert forall|j: int| 0 <= j < i implies query_or_blank(#[trigger] lines[j]) by {
                    assert(front[j] == lines[j]);
                }
            },
        }
    }
}

/// Whether vectors, neighbours and conditions are those of records, each in its place.
pub open spec fn are_queries_of(
    rows: Seq<JsonView>,
    queries: Seq<Vec<Json>>,
    neighbors: Seq<Vec<i64>>,
    conditions: Seq<Option<Json>>,
) -> bool {
    &&& queries.len() == rows.len()
    &&& neighbors.len() == rows.len()
    &&& conditions.len() == rows.len()
    &&& forall|i: int|
        0 <= i < rows.len() ==> {
            let row = #[trigger] rows[i];
            &&& row.member("query"@) matches Some(JsonView::Array(items))
            &&& json::items_view(queries[i]@) == numbers(items, items.len() as int)
            &&& neighbors[i]@ == neighbors_of(row)
            &&& is_condition_of(conditions[i], row)
        }
}

/// Reads the lines of queries: the numbers of each vector, the true neighbours of each query, and the
/// conditions, which are handed out only in a form that no declared filter is lost from. Blank lines are
/// skipped, and the first line that is no query is an error.
pub fn read_compound_queries(lines: &[String]) -> (r: Result<
    (Vec<Vec<Json>>, Vec<Vec<i64>>, QueryConditions),
    String,
>)
    ensures
        match query_records(text::texts_view(lines@)) {
            Ok(rows) => r matches Ok(q) && are_queries_of(rows, q.0@, q.1@, q.2.conditions()),
            Err(e) => r matches Err(m) && m@ == e,
        },
{
    let ghost views = text::texts_view(lines@);
    let mut queries: Vec<Vec<Json>> = Vec::new();
    let mut neighbors: Vec<Vec<i64>> = Vec::new();
    let mut conditions: Vec<Option<Json>> = Vec::new();
    let ghost mut rows: Seq<JsonView> = Seq::empty();
    let mut i: usize = 0;
    while i < lines.len()
        invariant
            i <= lines@.len(),
            views == text::texts_view(lines@),
            query_records(views.take(i as int)) == Ok::<Seq<JsonView>, Seq<char>>(rows),
            are_queries_of(rows, queries@, neighbors@, conditions@),
        decreases lines@.len() - i,
    {
        let line: &str = lines[i].as_str();
        proof {
            assert(views.take(i + 1).drop_last() =~= views.take(i as int));
            assert(views.take(i + 1).last() == line@);
        }
        if !is_blank(line) {
            let row: Json = match parse_json(line) {
                Ok(row) => row,
                Err(e) => {
                    proof {
                        lemma_query_error(views, i + 1);
                    }
                    let mut m: String = "Failed to parse tests.jsonl: ".to_owned();
                    m.append(e.as_str());
                    return Err(m);
                },
            };
            match read_query_row(&row) {
                Err(e) => {
                    proof {
                        lemma_query_error(views, i + 1);
                    }
                    return Err(e);
                },
                Ok(q) => {
                    queries.push(q.query);
                    neighbors.push(q.neighbors);
                    conditions.push(q.conditions);
                    proof {
                        let before = rows;
                        rows = before.push(row@);
                        assert forall|k: int| 0 <= k < rows.len() implies ({
                            let each = #[trigger] rows[k];
                            &&& each.member("query"@) matches Some(JsonView::Array(items))
                            &&& json::items_view(queries@[k]@) == numbers(
                                items,
                                items.len() as int,
                            )
                            &&& neighbors@[k]@ == neighbors_of(each)
                            &&& is_condition_of(conditions@[k], each)
                        }) by {
                            if k < before.len() {
                                assert(rows[k] == before[k]);
                            }
                        }
                    }
                },
            }
        }
        i += 1;
    }
    assert(views.take(i as int) =~= views);
    Ok((queries, neighbors, QueryConditions::new(conditions)))
}

/// The records of the lines of payloads, in their places, or what is wrong with the first line that is
/// no JSON. A blank line has no record.
pub open spec fn payload_records(lines: Seq<Seq<char>>) -> Result<Seq<Option<JsonView>>, Seq<char>>
    decreases lines.len(),
{
    if lines.len() == 0 {
        Ok(Seq::empty())
    } else {
        match payload_records(lines.drop_last()) {
            Err(e) => Err(e),
            Ok(rows) => if blank(lines.last()) {
                Ok(rows.push(None))
            } else {
                match json_parse::parsed_json(lines.last()) {
                    Err(e) => Err("Failed to parse JSON: "@ + e),
                    Ok(row) => Ok(rows.push(Some(row))),
                }
            },
        }
    }
}

/// An error among the first lines is the error of all.
proof fn lemma_payload_error(lines: Seq<Seq<char>>, n: int)
    requires
        0 <= n <= lines.len(),
        payload_records(lines.take(n)) is Err,
    ensures
        payload_records(lines) == payload_records(lines.take(n)),
    decreases lines.len() - n,
{
    if n < lines.len() {
        assert(lines.take(n + 1).drop_last() =~= lines.take(n));
        lemma_payload_error(lines, n + 1);
    } else {
        assert(lines.take(n) =~= lines);
    }
}

/// Payloads have one place for each line, empty where the line is blank, and the first line that is
/// neither blank nor JSON is an error.
pub proof fn payloads_stand_in_their_lines(lines: Seq<Seq<char>>)
    ensures
        match payload_records(lines) {
            Ok(rows) => rows.len() == lines.len() && forall|i: int|
                0 <= i < lines.len() ==> (#[trigger] rows[i] is None <==> blank(lines[i])) && (
                !blank(lines[i]) ==> json_parse::parsed_json(lines[i]) is Ok && rows[i] == Some(
                    json_parse::parsed_json(lines[i])->Ok_0,
                )),
            Err(e) => exists|i: int|
                0 <= i < lines.len() && !blank(#[trigger] lines[i]) && (json_parse::parsed_json(
                    lines[i],
                ) matches Err(why) && e == "Failed to parse JSON: "@ + why) && forall|j: int|
                    0 <= j < i ==> blank(#[trigger] lines[j]) || json_parse::parsed_json(
                        lines[j],
                    ) is Ok,
        },
    decreases lines.len(),
{
    if lines.len() > 0 {
        let front = lines.drop_last();
        let n = front.len() as int;
        payloads_stand_in_their_lines(front);
        match payload_records(front) {
            Ok(before) => {
                assert forall|j: int| 0 <= j < n implies blank(#[trigger] lines[j])
                    || json_parse::parsed_json(lines[j]) is Ok by {
                    assert(front[j] == lines[j]);
                    assert(before[j] is None <==> blank(front[j]));
                }
                match payload_records(lines) {
                    Ok(rows) => {
                        assert forall|i: int| 0 <= i < lines.len() implies (#[trigger] rows[i] is None
                            <==> blank(lines[i])) && (!blank(lines[i]) ==> json_parse::parsed_json(
                            lines[i],
                        ) is Ok && rows[i] == Some(json_parse::parsed_json(lines[i])->Ok_0)) by {
                            if i < n {
                                assert(rows[i] == before[i]);
                                assert(front[i] == lines[i]);
                            }
                        }
                    },
                    Err(_) => {
                        assert(!blank(lines[n]));
                    },
                }
            },
            Err(e) => {
                let i = choose|i: int|
                    0 <= i < front.len() && !blank(#[trigger] front[i]) && (json_parse::parsed_json(
                        front[i],
                    ) matches Err(why) && e == "Failed to parse JSON: "@ + why) && forall|j: int|
                        0 <= j < i ==> blank(#[trigger] front[j]) || json_parse::parsed_json(
                            front[j],
                        ) is Ok;
                assert(lines[i] == front[i]);
                assert forall|j: int| 0 <= j < i implies blank(#[trigger] lines[j])
                    || json_parse::parsed_json(lines[j]) is Ok by {
                    assert(front[j] == lines[j]);
                }
            },
        }
    }
}

/// Whether a place holds a record, where there is one.
pub open spec fn holds_record(place: Option<Json>, record: Option<JsonView>) -> bool {
    match record {
        Some(v) => place matches Some(j) && j@ == v,
        None => place is None,
    }
}

/// Reads the lines of payloads: each place holds the record of its line, or nothing where the line is
/// blank. The first line that is no JSON is an error.
pub fn read_payload_lines(lines: &[String]) -> (r: Result<Vec<Option<Json>>, String>)
    ensures
        match payload_records(text::texts_view(lines@)) {
            Ok(rows) => r matches Ok(p) && p@.len() == rows.len() && forall|i: int|
                0 <= i < rows.len() ==> holds_record(#[trigger] p@[i], rows[i]),
            Err(e) => r matches Err(m) && m@ == e,
        },
{
    let ghost views = text::texts_view(lines@);
    let mut r: Vec<Option<Json>> = Vec::new();
    let ghost mut rows: Seq<Option<JsonView>> = Seq::empty();
    let mut i: usize = 0;
    while i < lines.len()
        invariant
            i <= lines@.len(),
            views == text::texts_view(lines@),
            payload_records(views.take(i as int)) == Ok::<Seq<Option<JsonView>>, Seq<char>>(rows),
            r@.len() == rows.len(),
            forall|k: int| 0 <= k < rows.len() ==> holds_record(#[trigger] r@[k], rows[k]),
        decreases lines@.len() - i,
    {
        let line: &str = lines[i].as_str();
        proof {
            assert(views.take(i + 1).drop_last() =~= views.take(i as int));
            assert(views.take(i + 1).last() == line@);
        }
        if is_blank(line) {
            r.push(None);
            proof {
                rows = rows.push(None);
            }
        } else {
            match parse_json(line) {
                Ok(row) => {
                    proof {
                        rows = rows.push(Some(row@));
                    }
                    r.push(Some(row));
                },
                Err(e) => {
                    proof {
                        lemma_payload_error(views, i + 1);
                    }
                    let mut m: String = "Failed to parse JSON: ".to_owned();
                    m.append(e.as_str());
                    return Err(m);
                },
            }
        }
        i += 1;
    }
    assert(views.take(i as int) =~= views);
    Ok(r)
}

/// Whether a place holds the metadata of a record, where there is one.
pub open spec fn holds_metadata(place: Option<MetadataItem>, record: Option<JsonView>) -> bool {
    match record {
        Some(v) => metadata::is_metadata_of(v, metadata::shown_members(v), place),
        None => place is None,
    }
}

/// Reads the lines of payloads: each place holds the metadata that the record of its line gives, or
/// nothing where the line is blank. The first line that is no JSON is an error.
pub fn read_payloads_jsonl(lines: &[String]) -> (r: Result<Vec<Option<MetadataItem>>, String>)
    ensures
        match payload_records(text::texts_view(lines@)) {
            Ok(rows) => r matches Ok(p) && p@.len() == rows.len() && forall|i: int|
                0 <= i < rows.len() ==> holds_metadata(#[trigger] p@[i], rows[i]),
            Err(e) => r matches Err(m) && m@ == e,
        },
{
    let records: Vec<Option<Json>> = match read_payload_lines(lines) {
        Ok(records) => records,
        Err(e) => return Err(e),
    };
    let ghost rows = payload_records(text::texts_view(lines@))->Ok_0;
    let mut r: Vec<Option<MetadataItem>> = Vec::new();
    let mut i: usize = 0;
    while i < records.len()
        invariant
            i <= records@.len(),
            records@.len() == rows.len(),
            forall|k: int| 0 <= k < rows.len() ==> holds_record(#[trigger] records@[k], rows[k]),
            r@.len() == i,
            forall|k: int| 0 <= k < i ==> holds_metadata(#[trigger] r@[k], rows[k]),
        decreases records@.len() - i,
    {
        assert(holds_record(records@[i as int], rows[i as int]));
        match &records[i] {
            Some(record) => r.push(parse_metadata_from_json(record)),
            None => r.push(None),
        }
        i += 1;
    }
    Ok(r)
}

/// Puts a dataset together: the vectors with the numbers that count them and with their payloads, which
/// are none where there is no file of them. Payloads that are not as many as the vectors are an error.
pub fn read_compound_data<V>(vectors: Vec<V>, payloads: Option<&[String]>) -> (r: Result<
    (Vec<i64>, Vec<V>, Vec<Option<MetadataItem>>),
    String,
>)
    requires
        vectors@.len() <= i64::MAX,
    ensures
        match payloads {
            None => r matches Ok(d) && d.0@ == Seq::new(vectors@.len(), |i: int| i as i64) && d.1
                == vectors && d.2@.len() == vectors@.len() && forall|i: int|
                0 <= i < vectors@.len() ==> #[trigger] d.2@[i] is None,
            Some(lines) => match payload_records(text::texts_view(lines@)) {
                Ok(rows) => if rows.len() == vectors@.len() {
                    r matches Ok(d) && d.0@ == Seq::new(vectors@.len(), |i: int| i as i64) && d.1
                        == vectors && d.2@.len() == vectors@.len() && forall|i: int|
                        0 <= i < vectors@.len() ==> holds_metadata(#[trigger] d.2@[i], rows[i])
                } else {
                    r matches Err(m) && m@ == count_error(rows.len(), vectors@.len())
                },
                Err(e) => r matches Err(m) && m@ == e,
            },
        },
{
    let count: usize = vectors.len();
    let metadata: Vec<Option<MetadataItem>> = match payloads {
        Some(lines) => {
            let read: Vec<Option<MetadataItem>> = match read_payloads_jsonl(lines) {
                Ok(read) => read,
                Err(e) => return Err(e),
            };
            if let Err(e) = check_payloads(Some(read.len()), count) {
                return Err(e);
            }
            read
        },
        None => {
            let mut none: Vec<Option<MetadataItem>> = Vec::new();
            let mut i: usize = 0;
            while i < count
                invariant
                    i <= count,
                    none@.len() == i,
                    forall|k: int| 0 <= k < i ==> #[trigger] none@[k] is None,
                decreases count - i,
            {
                none.push(None);
                i += 1;
            }
            none
        },
    };
    Ok((sequential_ids(count), vectors, metadata))
}

/// A vector that is a list of numbers is read as that list, and so are neighbours that are a list of whole
/// numbers: each in its place.
pub proof fn lists_of_numbers_are_read_as_they_are(items: Seq<JsonView>, n: int)
    requires
        0 <= n <= items.len(),
    ensures
        (forall|i: int| 0 <= i < n ==> (#[trigger] items[i]) is Number) ==> numbers(items, n)
            == items.take(n),
        (forall|i: int|
            0 <= i < n ==> ((#[trigger] items[i]).as_int() matches Some(x) && i64::MIN <= x <= i64::MAX))
            ==> whole_numbers(items, n).len() == n && forall|i: int|
            0 <= i < n ==> (#[trigger] whole_numbers(items, n)[i]) as int == items[i].as_int()->Some_0,
    decreases n,
{
    if n > 0 {
        lists_of_numbers_are_read_as_they_are(items, n - 1);
        if forall|i: int| 0 <= i < n ==> (#[trigger] items[i]) is Number {
            assert(items.take(n) =~= items.take(n - 1).push(items[n - 1]));
        }
        if forall|i: int|
            0 <= i < n ==> ((#[trigger] items[i]).as_int() matches Some(x) && i64::MIN <= x
                <= i64::MAX) {
            assert(items[n - 1].as_int() is Some);
        }
    } else {
        assert(numbers(items, n) =~= items.take(n));
    }
}

/// The query of every line that is not blank is read, and a blank line changes nothing.
pub proof fn every_line_with_a_query_is_read(lines: Seq<Seq<char>>, line: Seq<char>)
    requires
        query_records(lines) is Ok,
        query_or_blank(line),
    ensures
        query_records(lines.push(line)) matches Ok(rows) && {
            let before = query_records(lines)->Ok_0;
            &&& blank(line) ==> rows == before
            &&& !blank(line) ==> rows == before.push(json_parse::parsed_json(line)->Ok_0)
        },
{
    assert(lines.push(line).drop_last() =~= lines);
}

/// What was read of a query is its own: the neighbours are those that its record lists, its conditions those
/// that its record has, none where it has none.
pub proof fn queries_keep_their_neighbours(
    rows: Seq<JsonView>,
    queries: Seq<Vec<Json>>,
    neighbors: Seq<Vec<i64>>,
    conditions: Seq<Option<Json>>,
    i: int,
    k: int,
    items: Seq<JsonView>,
)
    requires
        are_queries_of(rows, queries, neighbors, conditions),
        0 <= i < rows.len(),
        rows[i].member("closest_ids"@) == Some(JsonView::Array(items)),
        forall|j: int|
            0 <= j < items.len() ==> ((#[trigger] items[j]).as_int() matches Some(x) && i64::MIN <= x
                <= i64::MAX),
        0 <= k < items.len(),
    ensures
        neighbors[i]@.len() == items.len(),
        items[k].as_int() == Some(neighbors[i]@[k] as int),
        conditions[i] is Some <==> rows[i].member("conditions"@) is Some,
        conditions[i] matches Some(c) ==> rows[i].member("conditions"@) == Some(c@),
{
    lists_of_numbers_are_read_as_they_are(items, items.len() as int);
    assert(neighbors[i]@ == neighbors_of(rows[i]));
    assert(neighbors[i]@ == whole_numbers(items, items.len() as int));
    assert(whole_numbers(items, items.len() as int)[k] as int == items[k].as_int()->Some_0);
}

} // verus!
