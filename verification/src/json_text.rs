//! JSON values as compact text.
use vstd::prelude::*;

use crate::json::{self, Json, JsonNumber};
use crate::json::{JsonView, NumberView};
use crate::text::{self, decimal_text, signed_decimal_text};

verus! {

/// A hexadecimal digit, in lower case.
pub open spec fn hex_char(d: int) -> char {
    if d < 10 {
        (('0' as int) + d) as char
    } else {
        (('a' as int) + (d - 10)) as char
    }
}

/// What a character is written as inside a JSON string.
pub open spec fn escaped_char(c: char) -> Seq<char> {
    if c == '"' {
        seq!['\\', '"']
    } else if c == '\\' {
        seq!['\\', '\\']
    } else if c == '\u{8}' {
        seq!['\\', 'b']
    } else if c == '\u{c}' {
        seq!['\\', 'f']
    } else if c == '\n' {
        seq!['\\', 'n']
    } else if c == '\r' {
        seq!['\\', 'r']
    } else if c == '\t' {
        seq!['\\', 't']
    } else if (c as int) < 32 {
        seq!['\\', 'u', '0', '0', hex_char((c as int) / 16), hex_char((c as int) % 16)]
    } else {
        seq![c]
    }
}

/// The characters of a text as they stand inside a JSON string.
pub open spec fn escaped(s: Seq<char>) -> Seq<char>
    decreases s.len(),
{
    if s.len() == 0 {
        Seq::empty()
    } else {
        escaped(s.drop_last()) + escaped_char(s.last())
    }
}

/// A text as a JSON string.
pub open spec fn quoted_text(s: Seq<char>) -> Seq<char> {
    "\""@ + escaped(s) + "\""@
}

/// `serde_json::to_string` of a text: the text in quotes, in which a quote, a backslash and the control
/// characters below the space are escaped, by their short escape where they have one, and every other
/// character stands as it is.
#[verifier::external_body]
pub(crate) fn quote(s: &str) -> (r: String)
    ensures
        r@ == quoted_text(s@),
{
    serde_json::to_string(s).unwrap()
}

/// How a number is written.
pub open spec fn number_text(n: NumberView) -> Seq<char> {
    match n {
        NumberView::PosInt(v) => text::decimal(v as nat),
        NumberView::NegInt(v) => text::signed_decimal(v as int),
        NumberView::Float(t) => t,
    }
}

/// A value as compact JSON text.
pub open spec fn compact_text(v: JsonView) -> Seq<char>
    decreases v, 0int,
{
    match v {
        JsonView::Null => "null"@,
        JsonView::Bool(b) => if b {
            "true"@
        } else {
            "false"@
        },
        JsonView::Number(n) => number_text(n),
        JsonView::Text(s) => quoted_text(s),
        JsonView::Array(items) => "["@ + items_text(items) + "]"@,
        JsonView::Object(members) => "{"@ + members_text(members) + "}"@,
    }
}

/// The items of an array, with commas between them.
pub open spec fn items_text(items: Seq<JsonView>) -> Seq<char>
    decreases items, 0int,
{
    if items.len() == 0 {
        Seq::empty()
    } else if items.len() == 1 {
        compact_text(items[0])
    } else {
        items_text(items.drop_last()) + ","@ + compact_text(items.last())
    }
}

/// The members of an object, with commas between them.
pub open spec fn members_text(members: Seq<(Seq<char>, JsonView)>) -> Seq<char>
    decreases members, 0int,
{
    if members.len() == 0 {
        Seq::empty()
    } else if members.len() == 1 {
        quoted_text(members[0].0) + ":"@ + compact_text(members[0].1)
    } else {
        members_text(members.drop_last()) + ","@ + (quoted_text(members.last().0) + ":"@
            + compact_text(members.last().1))
    }
}

/// Writes the items of an array.
fn push_items(out: &mut String, items: &Vec<Json>)
    ensures
        final(out)@ == old(out)@ + items_text(json::items_view(items@)),
    decreases items, 0int,
{
    let ghost views = json::items_view(items@);
    let ghost before = out@;
    let mut i: usize = 0;
    assert(before + items_text(views.take(0)) =~= before);
    while i < items.len()
        invariant
            i <= items@.len(),
            views == json::items_view(items@),
            out@ == before + items_text(views.take(i as int)),
        decreases items@.len() - i,
    {
        proof {
            assert(views.take(i + 1).drop_last() =~= views.take(i as int));
            assert(views.take(i + 1).last() == views[i as int]);
        }
        if i > 0 {
            out.append(",");
        }
        push_compact(out, &items[i]);
        assert(out@ =~= before + items_text(views.take(i + 1)));
        i += 1;
    }
    assert(views.take(i as int) =~= views);
}

/// Writes the members of an object.
fn push_members(out: &mut String, members: &Vec<(String, Json)>)
    ensures
        final(out)@ == old(out)@ + members_text(json::members_view(members@)),
    decreases members, 0int,
{
    let ghost views = json::members_view(members@);
    let ghost before = out@;
    let mut i: usize = 0;
    assert(before + members_text(views.take(0)) =~= before);
    while i < members.len()
        invariant
            i <= members@.len(),
            views == json::members_view(members@),
            out@ == before + members_text(views.take(i as int)),
        decreases members@.len() - i,
    {
        proof {
            assert(views.take(i + 1).drop_last() =~= views.take(i as int));
            assert(views.take(i + 1).last() == views[i as int]);
            assert(decreases_to!(members@[i as int] => members@[i as int].1));
        }
        let ghost part = quoted_text(views[i as int].0) + ":"@ + compact_text(views[i as int].1);
        if i > 0 {
            out.append(",");
        }
        let ghost sofar = out@;
        out.append(quote(members[i].0.as_str()).as_str());
        out.append(":");
        push_compact(out, &members[i].1);
        assert(out@ =~= sofar + part);
        assert(i == 0 ==> members_text(views.take(i + 1)) == part);
        assert(out@ =~= before + members_text(views.take(i + 1)));
        i += 1;
    }
    assert(views.take(i as int) =~= views);
}

/// Writes a value as compact JSON text.
fn push_compact(out: &mut String, v: &Json)
    ensures
        final(out)@ == old(out)@ + compact_text(v@),
    decreases v, 0int,
{
    broadcast use {json::lemma_array_view, json::lemma_object_view};

    let ghost before = out@;
    match v {
        Json::Null => {
            out.append("null");
        },
        Json::Bool(b) => {
            if *b {
                out.append("true");
            } else {
                out.append("false");
            }
        },
        Json::Number(n) => {
            out.append(number(n).as_str());
        },
        Json::Text(s) => {
            out.append(quote(s.as_str()).as_str());
        },
        Json::Array(items) => {
            out.append("[");
            push_items(out, items);
            out.append("]");
        },
        Json::Object(members) => {
            out.append("{");
            push_members(out, members);
            out.append("}");
        },
    }
    assert(out@ =~= before + compact_text(v@));
}

/// How a number is written.
pub fn number(n: &JsonNumber) -> (r: String)
    ensures
        r@ == number_text(n@),
{
    match n {
        JsonNumber::PosInt(i) => decimal_text(*i),
        JsonNumber::NegInt(i) => signed_decimal_text(*i),
        JsonNumber::Float(t) => t.clone(),
    }
}

/// A value as compact JSON text.
pub fn compact(v: &Json) -> (r: String)
    ensures
        r@ == compact_text(v@),
{
    let mut out: String = String::new();
    push_compact(&mut out, v);
    assert(out@ =~= compact_text(v@));
    out
}

} // verus!
