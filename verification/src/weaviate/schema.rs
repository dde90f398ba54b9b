//! The class definition, and object values typed for it.
use vstd::prelude::*;

use crate::json::{self, int_value, new_members, put_member, single, text_value, Json, JsonNumber};
use crate::json::{JsonView, NumberView};
use crate::readers::metadata::{self, MetadataValue};
use crate::text::{self, parse_i64, same_text, signed_decimal_text};
use crate::weaviate::filters;
use crate::weaviate::ids::{self, id_to_uuid};

verus! {

/// A text in lower case, by the tables of the standard library.
pub uninterp spec fn lowercased(s: Seq<char>) -> Seq<char>;

/// The lower case of an ASCII character.
pub open spec fn ascii_lower(c: char) -> char {
    if 'A' <= c && c <= 'Z' {
        ((c as int) + 32) as char
    } else {
        c
    }
}

/// `str::to_lowercase` of the standard library: a function of the text alone, which maps ASCII
/// letters one by one.
#[verifier::external_body]
fn lowercase(s: &str) -> (r: String)
    ensures
        r@ == lowercased(s@),
        s.is_ascii() ==> r@ == s@.map_values(|c: char| ascii_lower(c)),
{
    s.to_lowercase()
}

/// The name that Weaviate has for a metric, given in lower case.
pub open spec fn weaviate_metric(metric: Seq<char>) -> Option<Seq<char>> {
    if metric == "l2"@ || metric == "euclidean"@ {
        Some("l2-squared"@)
    } else if metric == "cosine"@ || metric == "angular"@ {
        Some("cosine"@)
    } else if metric == "dot"@ || metric == "ip"@ {
        Some("dot"@)
    } else {
        None
    }
}

/// The name that Weaviate has for a metric that is given in lower case, or an error that names it.
pub fn metric_named(metric: &str) -> (r: Result<&'static str, String>)
    ensures
        r is Ok == weaviate_metric(metric@) is Some,
        r matches Ok(name) ==> weaviate_metric(metric@) == Some(name@),
        r matches Err(e) ==> e@ == "Unsupported distance metric for Weaviate: "@ + metric@,
{
    if same_text(metric, "l2") || same_text(metric, "euclidean") {
        Ok("l2-squared")
    } else if same_text(metric, "cosine") || same_text(metric, "angular") {
        Ok("cosine")
    } else if same_text(metric, "dot") || same_text(metric, "ip") {
        Ok("dot")
    } else {
        let mut e: String = "Unsupported distance metric for Weaviate: ".to_owned();
        e.append(metric);
        Err(e)
    }
}

/// The name that Weaviate has for the metric of a dataset, whatever the case of its letters, or an
/// error that names the metric in lower case.
pub fn map_weaviate_distance(distance: &str) -> (r: Result<&'static str, String>)
    ensures
        r is Ok == weaviate_metric(lowercased(distance@)) is Some,
        r matches Ok(name) ==> weaviate_metric(lowercased(distance@)) == Some(name@),
        r matches Err(e) ==> e@ == "Unsupported distance metric for Weaviate: "@ + lowercased(
            distance@,
        ),
        distance.is_ascii() ==> lowercased(distance@) == distance@.map_values(
            |c: char| ascii_lower(c),
        ),
{
    metric_named(lowercase(distance).as_str())
}

/// Whether the field of that name holds several keywords.
pub open spec fn is_multivalued(field: Seq<char>) -> bool {
    field == "labels"@
}

/// The Weaviate type of a field of the dataset.
pub open spec fn data_type(field: Seq<char>, field_type: Seq<char>) -> Option<Seq<char>> {
    if field_type == "int"@ {
        Some("int"@)
    } else if field_type == "keyword"@ || field_type == "text"@ {
        Some(
            if is_multivalued(field) {
                "text[]"@
            } else {
                "text"@
            },
        )
    } else if field_type == "float"@ {
        Some("number"@)
    } else if field_type == "geo"@ {
        Some("geoCoordinates"@)
    } else if field_type == "bool"@ {
        Some("boolean"@)
    } else if field_type == "datetime"@ {
        Some("date"@)
    } else if field_type == "uuid"@ {
        Some("text"@)
    } else {
        None
    }
}

/// How the values of a text field are taken apart for matching.
pub open spec fn tokenization(field_type: Seq<char>) -> Option<Seq<char>> {
    if field_type == "keyword"@ || field_type == "uuid"@ {
        Some("field"@)
    } else if field_type == "text"@ {
        Some("word"@)
    } else {
        None
    }
}

/// The schema property of a field of the dataset: filterable always, searchable and tokenized where
/// it is text.
pub open spec fn property(field: Seq<char>, field_type: Seq<char>) -> Option<JsonView> {
    match data_type(field, field_type) {
        None => None,
        Some(kind) => {
            let base = json::put(
                json::put(
                    json::put(json::no_members(), "name"@, JsonView::Text(field)),
                    "dataType"@,
                    JsonView::Array(seq![JsonView::Text(kind)]),
                ),
                "indexFilterable"@,
                JsonView::Bool(true),
            );
            Some(
                JsonView::Object(
                    match tokenization(field_type) {
                        Some(t) => json::put(
                            json::put(base, "tokenization"@, JsonView::Text(t)),
                            "indexSearchable"@,
                            JsonView::Bool(true),
                        ),
                        None => base,
                    },
                ),
            )
        },
    }
}

/// Whether the field of that name holds several keywords.
pub fn is_multivalued_keyword_field(field_name: &str) -> (r: bool)
    ensures
        r == is_multivalued(field_name@),
{
    same_text(field_name, "labels")
}

/// The Weaviate type of a field of the dataset.
fn data_type_of(field_name: &str, field_type: &str) -> (r: Option<&'static str>)
    ensures
        r is Some == data_type(field_name@, field_type@) is Some,
        r matches Some(t) ==> data_type(field_name@, field_type@) == Some(t@),
{
    if same_text(field_type, "int") {
        Some("int")
    } else if same_text(field_type, "keyword") || same_text(field_type, "text") {
        if is_multivalued_keyword_field(field_name) {
            Some("text[]")
        } else {
            Some("text")
        }
    } else if same_text(field_type, "float") {
        Some("number")
    } else if same_text(field_type, "geo") {
        Some("geoCoordinates")
    } else if same_text(field_type, "bool") {
        Some("boolean")
    } else if same_text(field_type, "datetime") {
        Some("date")
    } else if same_text(field_type, "uuid") {
        Some("text")
    } else {
        None
    }
}

/// The schema property of a field of the dataset; nothing for a type that cannot be stored.
pub fn weaviate_property(field_name: &str, field_type: &str) -> (r: Option<Json>)
    ensures
        r is Some == property(field_name@, field_type@) is Some,
        r matches Some(p) ==> property(field_name@, field_type@) == Some(p@),
{
    broadcast use json::lemma_object_view;

    let kind: &str = match data_type_of(field_name, field_type) {
        Some(t) => t,
        None => return None,
    };
    let mut members: Vec<(String, Json)> = new_members();
    put_member(&mut members, "name", text_value(field_name));
    put_member(&mut members, "dataType", single(text_value(kind)));
    put_member(&mut members, "indexFilterable", Json::Bool(true));
    if same_text(field_type, "keyword") || same_text(field_type, "uuid") {
        put_member(&mut members, "tokenization", text_value("field"));
        put_member(&mut members, "indexSearchable", Json::Bool(true));
    } else if same_text(field_type, "text") {
        put_member(&mut members, "tokenization", text_value("word"));
        put_member(&mut members, "indexSearchable", Json::Bool(true));
    }
    Some(Json::Object(members))
}

/// The properties of the fields of a dataset's schema that can be stored, in order.
pub open spec fn properties(fields: Seq<(Seq<char>, JsonView)>) -> Seq<JsonView>
    decreases fields.len(),
{
    if fields.len() == 0 {
        Seq::empty()
    } else {
        let (field, kind) = fields.last();
        let field_type = match kind {
            JsonView::Text(t) => t,
            _ => ""@,
        };
        properties(fields.drop_last()) + match property(field, field_type) {
            Some(p) => seq![p],
            None => Seq::empty(),
        }
    }
}

/// `base` with every one of `extra` put into it.
pub open spec fn merged(
    base: Seq<(Seq<char>, JsonView)>,
    extra: Seq<(Seq<char>, JsonView)>,
) -> Seq<(Seq<char>, JsonView)>
    decreases extra.len(),
{
    if extra.len() == 0 {
        base
    } else {
        json::put(merged(base, extra.drop_last()), extra.last().0, extra.last().1)
    }
}

/// The index configuration of a class: the metric and the cache size, unless the engine's own
/// configuration says otherwise, and all that it says besides.
pub open spec fn index_config(metric: Seq<char>, own: JsonView) -> JsonView {
    let base = json::put(
        json::put(
            json::no_members(),
            "vectorCacheMaxObjects"@,
            JsonView::Number(NumberView::PosInt(1_000_000_000)),
        ),
        "distance"@,
        JsonView::Text(metric),
    );
    JsonView::Object(
        match own {
            JsonView::Object(extra) => merged(base, extra),
            _ => base,
        },
    )
}

/// The definition of a class.
pub open spec fn class_definition(
    class_name: Seq<char>,
    metric: Seq<char>,
    schema: Option<JsonView>,
    own: JsonView,
) -> JsonView {
    let fields = match schema {
        Some(JsonView::Object(fields)) => properties(fields),
        _ => Seq::empty(),
    };
    JsonView::Object(
        json::put(
            json::put(
                json::put(
                    json::put(json::no_members(), "class"@, JsonView::Text(class_name)),
                    "vectorizer"@,
                    JsonView::Text("none"@),
                ),
                "properties"@,
                JsonView::Array(fields),
            ),
            "vectorIndexConfig"@,
            index_config(metric, own),
        ),
    )
}

/// The properties of the fields of a dataset's schema.
fn list_properties(fields: &Vec<(String, Json)>) -> (r: Vec<Json>)
    ensures
        json::items_view(r@) == properties(json::members_view(fields@)),
{
    let ghost views = json::members_view(fields@);
    let mut r: Vec<Json> = Vec::new();
    let mut i: usize = 0;
    assert(json::items_view(r@) =~= properties(views.take(0)));
    while i < fields.len()
        invariant
            i <= fields@.len(),
            views == json::members_view(fields@),
            json::items_view(r@) == properties(views.take(i as int)),
        decreases fields@.len() - i,
    {
        proof {
            assert(views.take(i + 1).drop_last() =~= views.take(i as int));
            assert(views.take(i + 1).last() == views[i as int]);
        }
        let field_type: &str = match fields[i].1.as_str() {
            Some(t) => t,
            None => "",
        };
        if let Some(p) = weaviate_property(fields[i].0.as_str(), field_type) {
            r.push(p);
        }
        assert(json::items_view(r@) =~= properties(views.take(i + 1)));
        i += 1;
    }
    assert(views.take(i as int) =~= views);
    r
}

/// Puts every one of `extra` into `base`.
fn merge(base: &mut Vec<(String, Json)>, extra: &Vec<(String, Json)>)
    ensures
        json::members_view(final(base)@) == merged(
            json::members_view(old(base)@),
            json::members_view(extra@),
        ),
{
    let ghost before = json::members_view(base@);
    let ghost views = json::members_view(extra@);
    let mut i: usize = 0;
    assert(views.take(0) =~= Seq::empty());
    while i < extra.len()
        invariant
            i <= extra@.len(),
            views == json::members_view(extra@),
            json::members_view(base@) == merged(before, views.take(i as int)),
        decreases extra@.len() - i,
    {
        proof {
            assert(views.take(i + 1).drop_last() =~= views.take(i as int));
            assert(views.take(i + 1).last() == views[i as int]);
        }
        put_member(base, extra[i].0.as_str(), extra[i].1.clone());
        i += 1;
    }
    assert(views.take(i as int) =~= views);
}

/// The definition of a class for a dataset with a metric and a schema, and for the engine's own
/// index configuration.
pub fn class_body(class_name: &str, metric: &str, schema: Option<&Json>, own: &Json) -> (r: Json)
    ensures
        r@ == class_definition(
            class_name@,
            metric@,
            match schema {
                Some(s) => Some(s@),
                None => None,
            },
            own@,
        ),
{
    broadcast use {json::lemma_object_view, json::lemma_array_view};

    let mut fields: Vec<Json> = Vec::new();
    assert(json::items_view(fields@) =~= Seq::empty());
    if let Some(s) = schema {
        if let Some(m) = s.as_object() {
            fields = list_properties(m);
        }
    }
    let mut index: Vec<(String, Json)> = new_members();
    put_member(
        &mut index,
        "vectorCacheMaxObjects",
        Json::Number(JsonNumber::PosInt(1_000_000_000)),
    );
    put_member(&mut index, "distance", text_value(metric));
    if let Some(extra) = own.as_object() {
        merge(&mut index, extra);
    }
    let mut members: Vec<(String, Json)> = new_members();
    put_member(&mut members, "class", text_value(class_name));
    put_member(&mut members, "vectorizer", text_value("none"));
    put_member(&mut members, "properties", Json::Array(fields));
    put_member(&mut members, "vectorIndexConfig", Json::Object(index));
    Json::Object(members)
}

/// The search-time `ef` of a request: the one of the index configuration, else the plain one.
pub fn chosen_ef(index_config: Option<&Json>, plain: Option<i64>) -> (r: Option<i64>)
    ensures
        r == match index_config {
            Some(c) => match c@.member("ef"@) {
                Some(v) => match v.as_int() {
                    Some(n) => Some(n as i64),
                    None => plain,
                },
                None => plain,
            },
            None => plain,
        },
{
    if let Some(c) = index_config {
        if let Some(v) = c.get("ef") {
            if let Some(n) = v.as_i64() {
                return Some(n);
            }
        }
    }
    plain
}

/// A class definition with `ef` put into its index configuration, which is added where it is missing.
pub open spec fn with_ef(class: JsonView, ef: i64) -> Result<JsonView, Seq<char>> {
    match class {
        JsonView::Object(members) => match (match json::member_of(
            members,
            "vectorIndexConfig"@,
        ) {
            Some(c) => c,
            None => JsonView::Object(json::no_members()),
        }) {
            JsonView::Object(config) => Ok(
                JsonView::Object(
                    json::put(
                        members,
                        "vectorIndexConfig"@,
                        JsonView::Object(json::put(config, "ef"@, json::int_view(ef))),
                    ),
                ),
            ),
            _ => Err("vectorIndexConfig is not a JSON object"@),
        },
        _ => Err("class definition is not a JSON object"@),
    }
}

/// The whole class definition to send back so that searches use `ef`: the definition that was
/// fetched, with nothing changed but that.
pub fn class_with_ef(class: &Json, ef: i64) -> (r: Result<Json, String>)
    ensures
        r is Ok == with_ef(class@, ef) is Ok,
        r matches Ok(c) ==> with_ef(class@, ef)->Ok_0 == c@,
        r matches Err(e) ==> with_ef(class@, ef)->Err_0 == e@,
{
    broadcast use json::lemma_object_view;

    let members: &Vec<(String, Json)> = match class.as_object() {
        Some(m) => m,
        None => return Err("class definition is not a JSON object".to_owned()),
    };
    let mut config: Vec<(String, Json)> = new_members();
    if let Some(c) = class.get("vectorIndexConfig") {
        match c.as_object() {
            Some(m) => {
                config = json::copy_members(m);
            },
            None => return Err("vectorIndexConfig is not a JSON object".to_owned()),
        }
    }
    put_member(&mut config, "ef", int_value(ef));
    let mut changed: Vec<(String, Json)> = json::copy_members(members);
    put_member(&mut changed, "vectorIndexConfig", Json::Object(config));
    Ok(Json::Object(changed))
}

/// What `str::parse` makes of a text as a double, as JSON writes it: nothing where the text is no
/// number, and no text where JSON has none for it.
pub uninterp spec fn parsed_double(s: Seq<char>) -> Option<Option<Seq<char>>>;

/// `str::parse` to a double and `serde_json::Number::from_f64`: a function of the text alone.
#[verifier::external_body]
fn parse_double(s: &str) -> (r: Option<Option<String>>)
    ensures
        r is Some == parsed_double(s@) is Some,
        r matches Some(n) ==> n is Some == parsed_double(s@)->0 is Some,
        r matches Some(n) ==> (n matches Some(t) ==> parsed_double(s@)->0->0 == t@),
{
    s.parse().ok().map(serde_json::Number::from_f64).map(|n| n.map(|x| x.to_string()))
}

/// Whether a field of that type is stored as text.
pub open spec fn is_text_type(schema_type: Option<Seq<char>>) -> bool {
    schema_type == Some("keyword"@) || schema_type == Some("text"@)
}

/// A text as a field of that type stores it.
pub open spec fn typed_text(schema_type: Option<Seq<char>>, s: Seq<char>) -> JsonView {
    if schema_type == Some("int"@) {
        match text::parsed_signed(s) {
            Some(n) => if i64::MIN <= n <= i64::MAX {
                json::int_view(n as i64)
            } else {
                JsonView::Text(s)
            },
            None => JsonView::Text(s),
        }
    } else if schema_type == Some("float"@) {
        match parsed_double(s) {
            Some(Some(t)) => JsonView::Number(NumberView::Float(t)),
            Some(None) => JsonView::Null,
            None => JsonView::Text(s),
        }
    } else if schema_type == Some("bool"@) && s == "true"@ {
        JsonView::Bool(true)
    } else if schema_type == Some("bool"@) && s == "false"@ {
        JsonView::Bool(false)
    } else {
        JsonView::Text(s)
    }
}

/// A metadata value as a field of that type stores it: numbers stay text in a text field, and texts
/// become the numbers and truth values that a typed field needs.
pub open spec fn typed_value(schema_type: Option<Seq<char>>, value: MetadataValue) -> JsonView {
    match value {
        MetadataValue::Text(s) => typed_text(schema_type, s@),
        MetadataValue::Int(n) => if is_text_type(schema_type) {
            JsonView::Text(text::signed_decimal(n as int))
        } else {
            json::int_view(n)
        },
        MetadataValue::Float { value, shown } => if is_text_type(schema_type) {
            JsonView::Text(shown@)
        } else {
            value@
        },
        MetadataValue::Labels(labels) => JsonView::Array(
            Seq::new(labels@.len(), |i: int| JsonView::Text(labels@[i]@)),
        ),
        MetadataValue::Geo { lon, lat } => JsonView::Object(
            json::put(json::put(json::no_members(), "latitude"@, lat@), "longitude"@, lon@),
        ),
    }
}

/// A metadata value as a field of that type stores it.
pub fn coerce_metadata_value(schema_type: Option<&str>, value: &MetadataValue) -> (r: Json)
    ensures
        r@ == typed_value(
            match schema_type {
                Some(t) => Some(t@),
                None => None,
            },
            *value,
        ),
{
    broadcast use {json::lemma_object_view, json::lemma_array_view};

    let kind: &str = match schema_type {
        Some(t) => t,
        None => "",
    };
    let typed: bool = schema_type.is_some();
    let as_text: bool = typed && (same_text(kind, "keyword") || same_text(kind, "text"));
    match value {
        MetadataValue::Text(s) => {
            if typed && same_text(kind, "int") {
                if let Some(n) = parse_i64(s.as_str()) {
                    return int_value(n);
                }
            } else if typed && same_text(kind, "float") {
                if let Some(parsed) = parse_double(s.as_str()) {
                    return match parsed {
                        Some(t) => Json::Number(JsonNumber::Float(t)),
                        None => Json::Null,
                    };
                }
            } else if typed && same_text(kind, "bool") {
                if same_text(s.as_str(), "true") {
                    return Json::Bool(true);
                }
                if same_text(s.as_str(), "false") {
                    return Json::Bool(false);
                }
            }
            text_value(s.as_str())
        },
        MetadataValue::Int(n) => if as_text {
            Json::Text(signed_decimal_text(*n))
        } else {
            int_value(*n)
        },
        MetadataValue::Float { value, shown } => if as_text {
            text_value(shown.as_str())
        } else {
            value.clone()
        },
        MetadataValue::Labels(labels) => {
            let mut items: Vec<Json> = Vec::new();
            let mut i: usize = 0;
            while i < labels.len()
                invariant
                    i <= labels@.len(),
                    items@.len() == i,
                    forall|j: int|
                        0 <= j < i ==> (#[trigger] items@[j])@ == JsonView::Text(labels@[j]@),
                decreases labels@.len() - i,
            {
                items.push(text_value(labels[i].as_str()));
                i += 1;
            }
            assert(json::items_view(items@) =~= Seq::new(
                labels@.len(),
                |j: int| JsonView::Text(labels@[j]@),
            ));
            Json::Array(items)
        },
        MetadataValue::Geo { lon, lat } => {
            let mut members: Vec<(String, Json)> = new_members();
            put_member(&mut members, "latitude", lat.clone());
            put_member(&mut members, "longitude", lon.clone());
            Json::Object(members)
        },
    }
}

/// The type that the schema gives a field.
pub open spec fn schema_type_of(schema: Seq<(String, String)>, field: Seq<char>) -> Option<
    Seq<char>,
>
    decreases schema.len(),
{
    if schema.len() == 0 {
        None
    } else if schema.last().0@ == field {
        Some(schema.last().1@)
    } else {
        schema_type_of(schema.drop_last(), field)
    }
}

/// The stored properties of a row's fields.
pub open spec fn row_properties(
    schema: Seq<(String, String)>,
    fields: Seq<(String, MetadataValue)>,
) -> Seq<(Seq<char>, JsonView)>
    decreases fields.len(),
{
    if fields.len() == 0 {
        json::no_members()
    } else {
        json::put(
            row_properties(schema, fields.drop_last()),
            fields.last().0@,
            typed_value(schema_type_of(schema, fields.last().0@), fields.last().1),
        )
    }
}

/// The object that stores a row.
pub open spec fn row_object(
    class_name: Seq<char>,
    id: i64,
    properties: Seq<(Seq<char>, JsonView)>,
    vector: JsonView,
) -> JsonView {
    JsonView::Object(
        json::put(
            json::put(
                json::put(
                    json::put(json::no_members(), "class"@, JsonView::Text(class_name)),
                    "id"@,
                    JsonView::Text(ids::uuid_text(ids::value_of(id))),
                ),
                "properties"@,
                JsonView::Object(properties),
            ),
            "vector"@,
            vector,
        ),
    )
}

/// The type that the schema gives a field; the last entry counts where there are several.
fn schema_type<'a>(schema: &'a Vec<(String, String)>, field: &str) -> (r: Option<&'a str>)
    ensures
        r is Some == schema_type_of(schema@, field@) is Some,
        r matches Some(t) ==> schema_type_of(schema@, field@) == Some(t@),
{
    let mut i: usize = schema.len();
    assert(schema@.take(i as int) =~= schema@);
    while i > 0
        invariant
            i <= schema@.len(),
            schema_type_of(schema@, field@) == schema_type_of(schema@.take(i as int), field@),
        decreases i,
    {
        i -= 1;
        assert(schema@.take(i + 1).last() == schema@[i as int]);
        assert(schema@.take(i + 1).drop_last() =~= schema@.take(i as int));
        if same_text(schema[i].0.as_str(), field) {
            return Some(schema[i].1.as_str());
        }
    }
    None
}

/// The fields below `n` that a schema gives a type, and their types.
pub open spec fn typed_fields(fields: Seq<(Seq<char>, JsonView)>, n: int) -> Seq<(Seq<char>, Seq<char>)>
    decreases n,
{
    if n <= 0 {
        Seq::empty()
    } else {
        match fields[n - 1].1 {
            JsonView::Text(t) => typed_fields(fields, n - 1).push((fields[n - 1].0, t)),
            _ => typed_fields(fields, n - 1),
        }
    }
}

/// The views of pairs of texts.
pub open spec fn pairs_view(pairs: Seq<(String, String)>) -> Seq<(Seq<char>, Seq<char>)> {
    Seq::new(pairs.len(), |i: int| (pairs[i].0@, pairs[i].1@))
}

/// The fields that a schema gives a type, and their types; none where it is no object.
pub fn schema_types(schema: Option<&Json>) -> (r: Vec<(String, String)>)
    ensures
        match schema {
            Some(s) => match s@ {
                JsonView::Object(fields) => pairs_view(r@) == typed_fields(
                    fields,
                    fields.len() as int,
                ),
                _ => r@.len() == 0,
            },
            None => r@.len() == 0,
        },
{
    broadcast use json::lemma_object_view;

    let mut r: Vec<(String, String)> = Vec::new();
    assert(pairs_view(r@) =~= Seq::empty());
    if let Some(s) = schema {
        if let Some(fields) = s.as_object() {
            let ghost views = json::members_view(fields@);
            let mut i: usize = 0;
            while i < fields.len()
                invariant
                    i <= fields@.len(),
                    views == json::members_view(fields@),
                    pairs_view(r@) == typed_fields(views, i as int),
                decreases fields@.len() - i,
            {
                let ghost before = pairs_view(r@);
                assert(views[i as int] == (fields@[i as int].0@, fields@[i as int].1@));
                if let Some(t) = fields[i].1.as_str() {
                    r.push((fields[i].0.clone(), t.to_owned()));
                    assert(pairs_view(r@) =~= before.push((fields@[i as int].0@, t@)));
                }
                i += 1;
            }
        }
    }
    r
}

/// A row to store: its number, its metadata and its vector as a JSON array.
pub struct Row {
    pub id: i64,
    pub fields: Vec<(String, MetadataValue)>,
    pub vector: Json,
}

/// The object that stores a row.
fn new_object(class_name: &str, row: &Row, schema: &Vec<(String, String)>) -> (r: Json)
    ensures
        r@ == row_object(
            class_name@,
            row.id,
            row_properties(schema@, row.fields@),
            row.vector@,
        ),
{
    broadcast use json::lemma_object_view;

    let mut properties: Vec<(String, Json)> = new_members();
    let mut i: usize = 0;
    assert(row.fields@.take(0) =~= Seq::empty());
    while i < row.fields.len()
        invariant
            i <= row.fields@.len(),
            json::members_view(properties@) == row_properties(
                schema@,
                row.fields@.take(i as int),
            ),
        decreases row.fields@.len() - i,
    {
        proof {
            assert(row.fields@.take(i + 1).drop_last() =~= row.fields@.take(i as int));
            assert(row.fields@.take(i + 1).last() == row.fields@[i as int]);
        }
        let key: &str = row.fields[i].0.as_str();
        let value: Json = coerce_metadata_value(schema_type(schema, key), &row.fields[i].1);
        put_member(&mut properties, key, value);
        i += 1;
    }
    assert(row.fields@.take(i as int) =~= row.fields@);
    let mut members: Vec<(String, Json)> = new_members();
    put_member(&mut members, "class", text_value(class_name));
    put_member(&mut members, "id", Json::Text(id_to_uuid(row.id)));
    put_member(&mut members, "properties", Json::Object(properties));
    put_member(&mut members, "vector", row.vector.clone());
    Json::Object(members)
}

/// The objects that store a batch of rows.
pub open spec fn row_objects(
    class_name: Seq<char>,
    rows: Seq<Row>,
    schema: Seq<(String, String)>,
) -> Seq<JsonView> {
    Seq::new(
        rows.len(),
        |i: int|
            row_object(
                class_name,
                rows[i].id,
                row_properties(schema, rows[i].fields@),
                rows[i].vector@,
            ),
    )
}

/// The body of the request that stores a batch of rows.
pub fn batch_body(class_name: &str, rows: &[Row], schema_types: &Vec<(String, String)>) -> (r: Json)
    ensures
        r@ == JsonView::Object(
            json::put(
                json::no_members(),
                "objects"@,
                JsonView::Array(row_objects(class_name@, rows@, schema_types@)),
            ),
        ),
{
    broadcast use {json::lemma_object_view, json::lemma_array_view};

    let mut objects: Vec<Json> = Vec::new();
    let mut i: usize = 0;
    while i < rows.len()
        invariant
            i <= rows@.len(),
            objects@.len() == i,
            forall|j: int|
                0 <= j < i ==> (#[trigger] objects@[j])@ == row_objects(
                    class_name@,
                    rows@,
                    schema_types@,
                )[j],
        decreases rows@.len() - i,
    {
        objects.push(new_object(class_name, &rows[i], schema_types));
        i += 1;
    }
    assert(json::items_view(objects@) =~= row_objects(class_name@, rows@, schema_types@));
    let mut members: Vec<(String, Json)> = new_members();
    put_member(&mut members, "objects", Json::Array(objects));
    Json::Object(members)
}

/// The first of the items, or the member called `0`.
pub open spec fn first_inside(v: JsonView) -> Option<JsonView> {
    match v {
        JsonView::Array(items) => if items.len() > 0 {
            Some(items[0])
        } else {
            None
        },
        _ => v.member("0"@),
    }
}

/// The member under `key` of the member that is there.
pub open spec fn inside(v: Option<JsonView>, key: Seq<char>) -> Option<JsonView> {
    match v {
        Some(m) => m.member(key),
        None => None,
    }
}

/// The status of one object in the reply to a batch.
pub open spec fn import_status(object: JsonView) -> Option<Seq<char>> {
    match inside(object.member("result"@), "status"@) {
        Some(JsonView::Text(s)) => Some(s),
        _ => None,
    }
}

/// The first error message of one object in the reply to a batch.
pub open spec fn import_error(object: JsonView) -> Seq<char> {
    let listed = inside(inside(object.member("result"@), "errors"@), "error"@);
    let first = match listed {
        Some(l) => first_inside(l),
        None => None,
    };
    match inside(first, "message"@) {
        Some(JsonView::Text(m)) => m,
        _ => "unknown error"@,
    }
}

/// Whether an object of the reply to a batch was not stored.
pub open spec fn import_failed(object: JsonView) -> bool {
    import_status(object) matches Some(s) && s != "SUCCESS"@
}

/// The text under a chain of two keys.
fn status_of(object: &Json) -> (r: Option<&str>)
    ensures
        r is Some == import_status(object@) is Some,
        r matches Some(s) ==> import_status(object@) == Some(s@),
{
    match object.get("result") {
        Some(result) => match result.get("status") {
            Some(v) => v.as_str(),
            None => None,
        },
        None => None,
    }
}

/// The first error message of one object in the reply to a batch.
fn message_of(object: &Json) -> (r: &str)
    ensures
        r@ == import_error(object@),
{
    let listed: &Json = match object.get("result") {
        Some(result) => match result.get("errors") {
            Some(errors) => match errors.get("error") {
                Some(v) => v,
                None => return "unknown error",
            },
            None => return "unknown error",
        },
        None => return "unknown error",
    };
    let first: Option<&Json> = match listed.as_array() {
        Some(items) => if items.len() > 0 {
            assert(json::items_view(items@)[0] == items@[0]@);
            Some(&items[0])
        } else {
            None
        },
        None => listed.get("0"),
    };
    match first {
        Some(v) => match v.get("message") {
            Some(m) => match m.as_str() {
                Some(s) => s,
                None => "unknown error",
            },
            None => "unknown error",
        },
        None => "unknown error",
    }
}

/// The first object of the reply to a batch that was not stored.
pub open spec fn first_failure(objects: Seq<JsonView>) -> Option<JsonView>
    decreases objects.len(),
{
    if objects.len() == 0 {
        None
    } else if first_failure(objects.drop_last()) is Some {
        first_failure(objects.drop_last())
    } else if import_failed(objects.last()) {
        Some(objects.last())
    } else {
        None
    }
}

/// A failure among the first objects is the first failure of all.
proof fn lemma_first_failure(objects: Seq<JsonView>, n: int)
    requires
        0 <= n <= objects.len(),
        first_failure(objects.take(n)) is Some,
    ensures
        first_failure(objects) == first_failure(objects.take(n)),
    decreases objects.len() - n,
{
    if n < objects.len() {
        assert(objects.take(n + 1).drop_last() =~= objects.take(n));
        lemma_first_failure(objects, n + 1);
    } else {
        assert(objects.take(n) =~= objects);
    }
}

/// The first object of the reply to a batch that was not stored, where the reply lists objects.
pub open spec fn failed_import(reply: JsonView) -> Option<JsonView> {
    match reply.items() {
        Some(objects) => first_failure(objects),
        None => None,
    }
}

/// What is said of an object that was not stored.
pub open spec fn import_text(object: JsonView) -> Seq<char> {
    "Batch object import failed (status "@ + import_status(object)->0 + "): "@ + import_error(object)
}

/// Checks the reply to a batch, which is a success as a whole even where objects were not stored:
/// the first object with a status other than success is an error.
pub fn check_batch_reply(reply: &Json) -> (r: Result<(), String>)
    ensures
        match failed_import(reply@) {
            None => r is Ok,
            Some(object) => r matches Err(e) && e@ == import_text(object),
        },
{
    let objects: &Vec<Json> = match reply.as_array() {
        Some(o) => o,
        None => return Ok(()),
    };
    let ghost views = json::items_view(objects@);
    let mut i: usize = 0;
    while i < objects.len()
        invariant
            i <= objects@.len(),
            views == json::items_view(objects@),
            reply@.items() == Some(views),
            first_failure(views.take(i as int)) is None,
        decreases objects@.len() - i,
    {
        proof {
            assert(views.take(i + 1).drop_last() =~= views.take(i as int));
            assert(views.take(i + 1).last() == objects@[i as int]@);
        }
        if let Some(status) = status_of(&objects[i]) {
            if !same_text(status, "SUCCESS") {
                proof {
                    lemma_first_failure(views, i + 1);
                }
                let mut e: String = "Batch object import failed (status ".to_owned();
                e.append(status);
                e.append("): ");
                e.append(message_of(&objects[i]));
                return Err(e);
            }
        }
        i += 1;
    }
    assert(views.take(i as int) =~= views);
    Ok(())
}

/// A place is stored with its latitude under `latitude` and its longitude under `longitude`, whatever the
/// type of its field.
pub proof fn places_are_stored_the_right_way_round(
    schema_type: Option<Seq<char>>,
    lon: Json,
    lat: Json,
)
    ensures
        ({
            let stored = typed_value(schema_type, MetadataValue::Geo { lon, lat });
            &&& stored.member("latitude"@) == Some(lat@)
            &&& stored.member("longitude"@) == Some(lon@)
        }),
{
    broadcast use json::put_then_member;

    reveal_strlit("latitude");
    reveal_strlit("longitude");
    assert("latitude"@.len() != "longitude"@.len());
}

/// A place that a payload gives is stored as the very coordinates that a filter around the same latitude
/// and longitude searches around.
pub proof fn places_are_searched_where_they_are_stored(
    field: Seq<char>,
    schema_type: Option<Seq<char>>,
    payload: JsonView,
    shown: Seq<char>,
    m: MetadataValue,
    criteria: JsonView,
)
    requires
        payload is Object,
        metadata::stands_for(payload, shown, m),
        payload.member("lat"@) matches Some(JsonView::Number(NumberView::Float(_))),
        payload.member("lon"@) matches Some(JsonView::Number(NumberView::Float(_))),
        criteria.member("lat"@) == payload.member("lat"@),
        criteria.member("lon"@) == payload.member("lon"@),
    ensures
        filters::geo_filter(field, criteria) matches Some(f) && (f.member(
            "valueGeoRange"@,
        ) matches Some(range) && range.member("geoCoordinates"@) == Some(
            typed_value(schema_type, m),
        )),
        typed_value(schema_type, m).member("latitude"@) == payload.member("lat"@),
        typed_value(schema_type, m).member("longitude"@) == payload.member("lon"@),
{
    broadcast use json::put_then_member;

    reveal_strlit("latitude");
    reveal_strlit("longitude");
    reveal_strlit("geoCoordinates");
    reveal_strlit("distance");
    reveal_strlit("valueGeoRange");
    assert("latitude"@.len() != "longitude"@.len());
    assert("geoCoordinates"@.len() != "distance"@.len());
    if let MetadataValue::Geo { lon, lat } = m {
        places_are_stored_the_right_way_round(schema_type, lon, lat);
        let f = filters::geo_filter(field, criteria)->0;
        let range = f.member("valueGeoRange"@)->0;
        assert(range.member("geoCoordinates"@) == Some(typed_value(schema_type, m)));
    }
}

/// What a payload gives is stored as it is given where the type of its field is that of the value: texts,
/// truth values, whole and other numbers, and lists of texts.
pub proof fn payload_values_are_stored_as_they_are(
    schema_type: Option<Seq<char>>,
    payload: JsonView,
    shown: Seq<char>,
    m: MetadataValue,
)
    requires
        metadata::stands_for(payload, shown, m),
    ensures
        payload is Text && (schema_type is None || schema_type == Some("keyword"@) || schema_type
            == Some("text"@) || schema_type == Some("datetime"@) || schema_type == Some("uuid"@))
            ==> typed_value(schema_type, m) == payload,
        payload is Bool && schema_type == Some("bool"@) ==> typed_value(schema_type, m) == payload,
        payload.as_int() is Some && (schema_type is None || schema_type == Some("int"@) || schema_type
            == Some("float"@)) ==> typed_value(schema_type, m).as_int() == payload.as_int(),
        payload is Number && payload.as_int() is None && (schema_type is None || schema_type == Some(
            "float"@,
        ) || schema_type == Some("int"@)) ==> typed_value(schema_type, m) == payload,
        payload matches JsonView::Array(items) && (forall|i: int|
            0 <= i < items.len() ==> #[trigger] items[i] is Text) ==> typed_value(schema_type, m)
            == payload,
{
    reveal_strlit("int");
    reveal_strlit("float");
    reveal_strlit("bool");
    reveal_strlit("keyword");
    reveal_strlit("text");
    reveal_strlit("datetime");
    reveal_strlit("uuid");
    reveal_strlit("true");
    reveal_strlit("false");
    assert("int"@.len() == 3 && "float"@.len() == 5 && "bool"@.len() == 4 && "keyword"@.len() == 7
        && "text"@.len() == 4 && "datetime"@.len() == 8 && "uuid"@.len() == 4);
    assert("bool"@[0] == 'b' && "text"@[0] == 't' && "uuid"@[0] == 'u');
    assert("true"@.len() != "false"@.len());
    if let JsonView::Array(items) = payload {
        if forall|i: int| 0 <= i < items.len() ==> #[trigger] items[i] is Text {
            lemma_all_labels(items, items.len() as int);
            if let MetadataValue::Labels(labels) = m {
                let stored = Seq::new(labels@.len(), |i: int| JsonView::Text(labels@[i]@));
                assert(text::texts_view(labels@).len() == labels@.len());
                assert forall|i: int| 0 <= i < items.len() implies #[trigger] stored[i]
                    == items[i] by {
                    assert(text::texts_view(labels@)[i] == labels@[i]@);
                }
                assert(stored =~= items);
            }
        }
    }
}

/// The texts of a list of texts are the list.
proof fn lemma_all_labels(items: Seq<JsonView>, n: int)
    requires
        0 <= n <= items.len(),
        forall|i: int| 0 <= i < items.len() ==> #[trigger] items[i] is Text,
    ensures
        metadata::label_texts(items, n).len() == n,
        forall|i: int|
            0 <= i < n ==> JsonView::Text(#[trigger] metadata::label_texts(items, n)[i]) == items[i],
    decreases n,
{
    if n > 0 {
        lemma_all_labels(items, n - 1);
        assert(items[n - 1] is Text);
    }
}

/// A whole number in a text field is stored as digits that read back as the number, another number as it
/// is shown, and digits in a field of whole numbers are stored as the number that they write.
pub proof fn numbers_and_their_texts_are_stored_alike(n: i64, value: Json, shown: String, s: String)
    ensures
        typed_value(Some("keyword"@), MetadataValue::Int(n)) matches JsonView::Text(t)
            && text::parsed_signed(t) == Some(n as int),
        typed_value(Some("text"@), MetadataValue::Int(n)) matches JsonView::Text(t)
            && text::parsed_signed(t) == Some(n as int),
        typed_value(Some("keyword"@), MetadataValue::Float { value, shown }) == JsonView::Text(shown@),
        typed_value(Some("text"@), MetadataValue::Float { value, shown }) == JsonView::Text(shown@),
        text::parsed_signed(s@) == Some(n as int) ==> typed_value(
            Some("int"@),
            MetadataValue::Text(s),
        ).as_int() == Some(n as int),
        text::parsed_signed(s@) is None ==> typed_value(Some("int"@), MetadataValue::Text(s))
            == JsonView::Text(s@),
{
    text::signed_decimal_reads_back(n as int);
}

/// The type of a field is the one that its last entry gives, and a field without an entry has none.
proof fn lemma_schema_type(schema: Seq<(String, String)>, i: int)
    requires
        0 <= i < schema.len(),
        forall|j: int| i < j < schema.len() ==> (#[trigger] schema[j]).0@ != schema[i].0@,
    ensures
        schema_type_of(schema, schema[i].0@) == Some(schema[i].1@),
    decreases schema.len(),
{
    if i < schema.len() - 1 {
        assert(schema[schema.len() - 1].0@ != schema[i].0@);
        let front = schema.drop_last();
        assert forall|j: int| i < j < front.len() implies (#[trigger] front[j]).0@ != front[i].0@ by {
            assert(schema[j] == front[j]);
        }
        lemma_schema_type(front, i);
    }
}

/// A field that no entry names has no type.
proof fn lemma_no_schema_type(schema: Seq<(String, String)>, field: Seq<char>)
    requires
        forall|j: int| 0 <= j < schema.len() ==> (#[trigger] schema[j]).0@ != field,
    ensures
        schema_type_of(schema, field) is None,
    decreases schema.len(),
{
    if schema.len() > 0 {
        assert(schema[schema.len() - 1].0@ != field);
        let front = schema.drop_last();
        assert forall|j: int| 0 <= j < front.len() implies (#[trigger] front[j]).0@ != field by {
            assert(schema[j] == front[j]);
        }
        lemma_no_schema_type(front, field);
    }
}

/// The values of a row's fields are under their names; the last counts of several of one name.
proof fn lemma_row_properties(
    schema: Seq<(String, String)>,
    fields: Seq<(String, MetadataValue)>,
    i: int,
)
    requires
        0 <= i < fields.len(),
        forall|j: int| i < j < fields.len() ==> (#[trigger] fields[j]).0@ != fields[i].0@,
    ensures
        json::member_of(row_properties(schema, fields), fields[i].0@) == Some(
            typed_value(schema_type_of(schema, fields[i].0@), fields[i].1),
        ),
    decreases fields.len(),
{
    broadcast use json::put_then_member;

    if i < fields.len() - 1 {
        assert(fields[fields.len() - 1].0@ != fields[i].0@);
        let front = fields.drop_last();
        assert forall|j: int| i < j < front.len() implies (#[trigger] front[j]).0@ != front[i].0@ by {
            assert(fields[j] == front[j]);
        }
        lemma_row_properties(schema, front, i);
    }
}

/// The body of a batch holds one object for every row, in the order of the rows: under the row's own
/// identifier, with the row's own vector, in the class that was asked for.
pub proof fn every_row_is_stored_as_itself(
    class_name: Seq<char>,
    rows: Seq<Row>,
    schema: Seq<(String, String)>,
    i: int,
)
    requires
        0 <= i < rows.len(),
    ensures
        row_objects(class_name, rows, schema).len() == rows.len(),
        ({
            let stored = row_objects(class_name, rows, schema)[i];
            &&& stored.member("class"@) == Some(JsonView::Text(class_name))
            &&& stored.member("id"@) == Some(
                JsonView::Text(ids::uuid_text(ids::value_of(rows[i].id))),
            )
            &&& ids::row_of(ids::value_of(rows[i].id)) == rows[i].id
            &&& stored.member("vector"@) == Some(rows[i].vector@)
            &&& stored.member("properties"@) is Some
        }),
{
    broadcast use json::put_then_member;

    lemma_object_names();
    ids::row_numbers_come_back(rows[i].id);
}

/// A field of a row is stored under its own name, by the type that the schema gives the field: by its own
/// type where the schema names it once, and as the value is where it does not name it.
pub proof fn every_field_is_stored_under_its_name(
    class_name: Seq<char>,
    rows: Seq<Row>,
    schema: Seq<(String, String)>,
    i: int,
    k: int,
)
    requires
        0 <= i < rows.len(),
        0 <= k < rows[i].fields@.len(),
        forall|j: int|
            k < j < rows[i].fields@.len() ==> (#[trigger] rows[i].fields@[j]).0@
                != rows[i].fields@[k].0@,
    ensures
        ({
            let field = rows[i].fields@[k];
            let stored = row_objects(class_name, rows, schema)[i].member(
                "properties"@,
            )->0.member(field.0@);
            &&& forall|x: int|
                0 <= x < schema.len() && (#[trigger] schema[x]).0@ == field.0@ && (forall|y: int|
                    x < y < schema.len() ==> (#[trigger] schema[y]).0@ != field.0@) ==> stored
                    == Some(typed_value(Some(schema[x].1@), field.1))
            &&& (forall|x: int| 0 <= x < schema.len() ==> (#[trigger] schema[x]).0@ != field.0@)
                ==> stored == Some(typed_value(None, field.1))
        }),
{
    broadcast use json::put_then_member;

    lemma_object_names();
    let fields = rows[i].fields@;
    lemma_row_properties(schema, fields, k);
    let stored = row_objects(class_name, rows, schema)[i];
    assert(stored.member("properties"@) == Some(
        JsonView::Object(row_properties(schema, fields)),
    ));
    assert forall|x: int|
        0 <= x < schema.len() && (#[trigger] schema[x]).0@ == fields[k].0@ && (forall|y: int|
            x < y < schema.len() ==> (#[trigger] schema[y]).0@ != fields[k].0@) implies schema_type_of(
        schema,
        fields[k].0@,
    ) == Some(schema[x].1@) by {
        lemma_schema_type(schema, x);
    }
    if forall|x: int| 0 <= x < schema.len() ==> (#[trigger] schema[x]).0@ != fields[k].0@ {
        lemma_no_schema_type(schema, fields[k].0@);
    }
}

/// The names of the members of an object are different.
proof fn lemma_object_names()
    ensures
        "class"@ != "id"@,
        "class"@ != "properties"@,
        "class"@ != "vector"@,
        "id"@ != "properties"@,
        "id"@ != "vector"@,
        "properties"@ != "vector"@,
{
    reveal_strlit("class");
    reveal_strlit("id");
    reveal_strlit("properties");
    reveal_strlit("vector");
    assert("class"@.len() == 5 && "id"@.len() == 2 && "properties"@.len() == 10 && "vector"@.len()
        == 6);
}

/// What is merged over another: its members count, and the others stay.
proof fn lemma_merged(
    base: Seq<(Seq<char>, JsonView)>,
    extra: Seq<(Seq<char>, JsonView)>,
    key: Seq<char>,
)
    requires
        forall|i: int, j: int|
            0 <= i < j < extra.len() ==> (#[trigger] extra[i]).0 != (#[trigger] extra[j]).0,
    ensures
        json::member_of(merged(base, extra), key) == match json::member_of(extra, key) {
            Some(v) => Some(v),
            None => json::member_of(base, key),
        },
    decreases extra.len(),
{
    broadcast use json::put_then_member;

    if extra.len() > 0 {
        let front = extra.drop_last();
        let last = extra.last();
        lemma_merged(base, front, key);
        lemma_last_member(extra, key);
    }
}

/// The member under a key is the last one, or among those before it.
proof fn lemma_last_member(members: Seq<(Seq<char>, JsonView)>, key: Seq<char>)
    requires
        members.len() > 0,
        forall|i: int, j: int|
            0 <= i < j < members.len() ==> (#[trigger] members[i]).0 != (#[trigger] members[j]).0,
    ensures
        json::member_of(members, key) == if members.last().0 == key {
            Some(members.last().1)
        } else {
            json::member_of(members.drop_last(), key)
        },
    decreases members.len(),
{
    let front = members.drop_last();
    if members.len() > 1 {
        let rest = members.skip(1);
        assert forall|i: int, j: int| 0 <= i < j < rest.len() implies (#[trigger] rest[i]).0 != (
        #[trigger] rest[j]).0 by {
            assert(rest[i] == members[i + 1] && rest[j] == members[j + 1]);
        }
        lemma_last_member(rest, key);
        assert(rest.drop_last() =~= front.skip(1));
        assert(rest.last() == members.last());
        assert(members[0].0 != members[members.len() - 1].0);
        assert(front[0] == members[0]);
    } else {
        assert(members.skip(1) =~= Seq::empty());
        assert(front =~= Seq::empty());
    }
}

/// The definition of a class names it, leaves vectors to the dataset, lists the properties of the fields of
/// the dataset, and measures by the metric of the dataset. The engine's own configuration of the index is
/// in it whole and counts before the rest.
pub proof fn a_class_is_defined_as_asked(
    class_name: Seq<char>,
    metric: Seq<char>,
    schema: Option<JsonView>,
    own: JsonView,
    key: Seq<char>,
)
    requires
        own matches JsonView::Object(extra) ==> forall|i: int, j: int|
            0 <= i < j < extra.len() ==> (#[trigger] extra[i]).0 != (#[trigger] extra[j]).0,
    ensures
        ({
            let class = class_definition(class_name, metric, schema, own);
            &&& class.member("class"@) == Some(JsonView::Text(class_name))
            &&& class.member("vectorizer"@) == Some(JsonView::Text("none"@))
            &&& class.member("properties"@) matches Some(JsonView::Array(listed))
            &&& listed == match schema {
                Some(JsonView::Object(fields)) => properties(fields),
                _ => Seq::empty(),
            }
            &&& class.member("vectorIndexConfig"@) matches Some(index)
            &&& own.member(key) is Some ==> index.member(key) == own.member(key)
            &&& own.member("distance"@) is None ==> index.member("distance"@) == Some(
                JsonView::Text(metric),
            )
        }),
{
    broadcast use json::put_then_member;

    reveal_strlit("class");
    reveal_strlit("vectorizer");
    reveal_strlit("properties");
    reveal_strlit("vectorIndexConfig");
    assert("class"@.len() == 5 && "vectorizer"@.len() == 10 && "properties"@.len() == 10
        && "vectorIndexConfig"@.len() == 17);
    assert("vectorizer"@[0] != "properties"@[0]);
    let base = json::put(
        json::put(
            json::no_members(),
            "vectorCacheMaxObjects"@,
            JsonView::Number(NumberView::PosInt(1_000_000_000)),
        ),
        "distance"@,
        JsonView::Text(metric),
    );
    if let JsonView::Object(extra) = own {
        lemma_merged(base, extra, key);
        lemma_merged(base, extra, "distance"@);
    }
}

/// Every field of a dataset whose type can be stored has a property, in the order of the fields, and no
/// other has one.
pub proof fn every_field_has_its_property(fields: Seq<(Seq<char>, JsonView)>) -> (at: Seq<int>)
    ensures
        at.len() == properties(fields).len(),
        forall|j: int|
            0 <= j < at.len() ==> 0 <= #[trigger] at[j] < fields.len() && (
            fields[at[j]].1 matches JsonView::Text(kind) && property(fields[at[j]].0, kind) == Some(
                properties(fields)[j],
            )),
        forall|j: int, l: int| 0 <= j < l < at.len() ==> at[j] < at[l],
        forall|i: int|
            0 <= i < fields.len() && ((#[trigger] fields[i]).1 matches JsonView::Text(kind)
                && property(fields[i].0, kind) is Some) ==> at.contains(i),
    decreases fields.len(),
{
    if fields.len() == 0 {
        Seq::empty()
    } else {
        let front = fields.drop_last();
        let before = every_field_has_its_property(front);
        let n = front.len() as int;
        let all = properties(fields);
        let last = fields[n];
        assert(property(last.0, ""@) is None) by {
            lemma_no_type();
        }
        if all.len() > before.len() {
            let at = before.push(n);
            assert forall|j: int| 0 <= j < at.len() implies 0 <= #[trigger] at[j] < fields.len() && (
            fields[at[j]].1 matches JsonView::Text(kind) && property(fields[at[j]].0, kind) == Some(
                all[j],
            )) by {
                if j < before.len() {
                    assert(at[j] == before[j]);
                    assert(front[at[j]] == fields[at[j]]);
                }
            }
            assert forall|i: int|
                0 <= i < fields.len() && ((#[trigger] fields[i]).1 matches JsonView::Text(kind)
                    && property(fields[i].0, kind) is Some) implies at.contains(i) by {
                if i < n {
                    assert(front[i] == fields[i]);
                    let j = choose|j: int| 0 <= j < before.len() && before[j] == i;
                    assert(at[j] == i);
                } else {
                    assert(at[before.len() as int] == i);
                }
            }
            at
        } else {
            assert forall|j: int| 0 <= j < before.len() implies 0 <= #[trigger] before[j]
                < fields.len() && (fields[before[j]].1 matches JsonView::Text(kind) && property(
                fields[before[j]].0,
                kind,
            ) == Some(all[j])) by {
                assert(front[before[j]] == fields[before[j]]);
            }
            assert forall|i: int|
                0 <= i < fields.len() && ((#[trigger] fields[i]).1 matches JsonView::Text(kind)
                    && property(fields[i].0, kind) is Some) implies before.contains(i) by {
                assert(i < n);
                assert(front[i] == fields[i]);
            }
            before
        }
    }
}

/// No type has no name.
proof fn lemma_no_type()
    ensures
        data_type(Seq::empty(), ""@) is None,
        forall|field: Seq<char>| #[trigger] data_type(field, ""@) is None,
{
    reveal_strlit("");
    reveal_strlit("int");
    reveal_strlit("keyword");
    reveal_strlit("text");
    reveal_strlit("float");
    reveal_strlit("geo");
    reveal_strlit("bool");
    reveal_strlit("datetime");
    reveal_strlit("uuid");
    assert(""@.len() == 0 && "int"@.len() == 3 && "keyword"@.len() == 7 && "text"@.len() == 4
        && "float"@.len() == 5 && "geo"@.len() == 3 && "bool"@.len() == 4 && "datetime"@.len() == 8
        && "uuid"@.len() == 4);
}

/// The property of a field has its name and can be filtered by, and its type is the one that values of the
/// field are stored in. Keywords and identifiers are matched whole and texts by their words.
pub proof fn properties_have_the_type_of_their_field(field: Seq<char>, kind: Seq<char>)
    ensures
        property(field, kind) is Some <==> kind == "int"@ || kind == "keyword"@ || kind == "text"@
            || kind == "float"@ || kind == "geo"@ || kind == "bool"@ || kind == "datetime"@ || kind
            == "uuid"@,
        property(field, kind) matches Some(p) ==> {
            &&& p.member("name"@) == Some(JsonView::Text(field))
            &&& p.member("indexFilterable"@) == Some(JsonView::Bool(true))
            &&& p.member("dataType"@) matches Some(JsonView::Array(types))
            &&& types.len() == 1
            &&& kind == "int"@ ==> types[0] == JsonView::Text("int"@)
            &&& kind == "float"@ ==> types[0] == JsonView::Text("number"@)
            &&& kind == "bool"@ ==> types[0] == JsonView::Text("boolean"@)
            &&& kind == "geo"@ ==> types[0] == JsonView::Text("geoCoordinates"@)
            &&& kind == "datetime"@ ==> types[0] == JsonView::Text("date"@)
            &&& kind == "uuid"@ ==> types[0] == JsonView::Text("text"@)
            &&& kind == "keyword"@ || kind == "text"@ ==> types[0] == JsonView::Text(
                if field == "labels"@ {
                    "text[]"@
                } else {
                    "text"@
                },
            )
            &&& p.member("tokenization"@) == if kind == "keyword"@ || kind == "uuid"@ {
                Some(JsonView::Text("field"@))
            } else if kind == "text"@ {
                Some(JsonView::Text("word"@))
            } else {
                None
            }
        },
{
    broadcast use json::put_then_member;

    lemma_no_type();
    reveal_strlit("int");
    reveal_strlit("keyword");
    reveal_strlit("text");
    reveal_strlit("float");
    reveal_strlit("geo");
    reveal_strlit("bool");
    reveal_strlit("datetime");
    reveal_strlit("uuid");
    assert("int"@.len() == 3 && "keyword"@.len() == 7 && "text"@.len() == 4 && "float"@.len() == 5
        && "geo"@.len() == 3 && "bool"@.len() == 4 && "datetime"@.len() == 8 && "uuid"@.len() == 4);
    assert("int"@[0] == 'i' && "geo"@[0] == 'g');
    assert("text"@[0] == 't' && "bool"@[0] == 'b' && "uuid"@[0] == 'u');
    reveal_strlit("name");
    reveal_strlit("dataType");
    reveal_strlit("indexFilterable");
    reveal_strlit("tokenization");
    reveal_strlit("indexSearchable");
    assert("name"@.len() == 4 && "dataType"@.len() == 8 && "indexFilterable"@.len() == 15
        && "tokenization"@.len() == 12 && "indexSearchable"@.len() == 15);
    assert("indexFilterable"@[5] != "indexSearchable"@[5]);
}

/// To change the search-time breadth of a class changes nothing else of it.
pub proof fn only_the_breadth_changes(class: JsonView, ef: i64, key: Seq<char>)
    ensures
        with_ef(class, ef) matches Ok(changed) ==> {
            &&& changed.member("vectorIndexConfig"@) matches Some(index)
            &&& index.member("ef"@) matches Some(v)
            &&& v.as_int() == Some(ef as int)
            &&& key != "ef"@ ==> index.member(key) == match class.member("vectorIndexConfig"@) {
                Some(before) => before.member(key),
                None => None,
            }
            &&& key != "vectorIndexConfig"@ ==> changed.member(key) == class.member(key)
        },
        with_ef(class, ef) is Ok <==> class is Object && (class.member(
            "vectorIndexConfig"@,
        ) matches Some(before) ==> before is Object),
{
    broadcast use json::put_then_member;

}

/// A batch was stored exactly where no object of the reply has a status other than success; otherwise the
/// first such object is the one that is reported.
pub proof fn the_first_object_that_was_not_stored_is_reported(objects: Seq<JsonView>)
    ensures
        match first_failure(objects) {
            None => forall|i: int|
                0 <= i < objects.len() ==> !import_failed(#[trigger] objects[i]),
            Some(object) => exists|i: int|
                0 <= i < objects.len() && #[trigger] objects[i] == object && import_failed(object)
                    && forall|j: int| 0 <= j < i ==> !import_failed(#[trigger] objects[j]),
        },
    decreases objects.len(),
{
    if objects.len() > 0 {
        let front = objects.drop_last();
        let n = front.len() as int;
        the_first_object_that_was_not_stored_is_reported(front);
        assert forall|j: int| 0 <= j < n implies #[trigger] objects[j] == front[j] by {}
        match first_failure(front) {
            Some(object) => {
                let i = choose|i: int|
                    0 <= i < front.len() && #[trigger] front[i] == object && import_failed(object)
                        && forall|j: int| 0 <= j < i ==> !import_failed(#[trigger] front[j]);
                assert(objects[i] == object);
            },
            None => {
                assert forall|j: int| 0 <= j < n implies !import_failed(#[trigger] objects[j]) by {
                    assert(!import_failed(front[j]));
                }
                if import_failed(objects.last()) {
                    assert(objects[n] == objects.last());
                }
            },
        }
    }
}

/// An object was not stored exactly where its result has a status other than `SUCCESS`.
pub proof fn a_status_other_than_success_is_a_failure(object: JsonView)
    ensures
        import_failed(object) <==> (object.member("result"@) matches Some(result) && (result.member(
            "status"@,
        ) matches Some(JsonView::Text(s)) && s != "SUCCESS"@)),
{
}

/// The names of a metric mean the same metric, and those of different metrics different ones; the cosine is
/// never taken for the dot product.
pub proof fn metrics_are_told_by_their_names()
    ensures
        weaviate_metric("l2"@) == Some("l2-squared"@),
        weaviate_metric("euclidean"@) == Some("l2-squared"@),
        weaviate_metric("cosine"@) == Some("cosine"@),
        weaviate_metric("angular"@) == Some("cosine"@),
        weaviate_metric("dot"@) == Some("dot"@),
        weaviate_metric("ip"@) == Some("dot"@),
        forall|m: Seq<char>|
            m != "l2"@ && m != "euclidean"@ && m != "cosine"@ && m != "angular"@ && m != "dot"@ && m
                != "ip"@ ==> #[trigger] weaviate_metric(m) is None,
{
    reveal_strlit("l2");
    reveal_strlit("euclidean");
    reveal_strlit("cosine");
    reveal_strlit("angular");
    reveal_strlit("dot");
    reveal_strlit("ip");
    assert("l2"@.len() == 2);
    assert("euclidean"@.len() == 9);
    assert("cosine"@.len() == 6);
    assert("angular"@.len() == 7);
    assert("dot"@.len() == 3);
    assert("ip"@.len() == 2);
    assert("l2"@[0] != "ip"@[0]);
}

/// The types of a schema are those of its fields: every field whose type is a text has it, in the order of the
/// fields, and no other has one.
pub proof fn fields_have_their_types(fields: Seq<(Seq<char>, JsonView)>, n: int) -> (at: Seq<int>)
    requires
        0 <= n <= fields.len(),
    ensures
        at.len() == typed_fields(fields, n).len(),
        forall|k: int|
            0 <= k < at.len() ==> 0 <= #[trigger] at[k] < n && fields[at[k]].0 == typed_fields(
                fields,
                n,
            )[k].0 && fields[at[k]].1 == JsonView::Text(typed_fields(fields, n)[k].1),
        forall|k: int, l: int| 0 <= k < l < at.len() ==> #[trigger] at[k] < #[trigger] at[l],
        forall|i: int| 0 <= i < n && (#[trigger] fields[i]).1 is Text ==> at.contains(i),
    decreases n,
{
    if n == 0 {
        Seq::empty()
    } else {
        let earlier = fields_have_their_types(fields, n - 1);
        if fields[n - 1].1 is Text {
            let at = earlier.push(n - 1);
            assert forall|i: int| 0 <= i < n && (#[trigger] fields[i]).1 is Text implies at.contains(i) by {
                if i < n - 1 {
                    let k = choose|k: int| 0 <= k < earlier.len() && earlier[k] == i;
                    assert(at[k] == i);
                } else {
                    assert(at[earlier.len() as int] == i);
                }
            }
            at
        } else {
            earlier
        }
    }
}

/// A truth value that is written as a text is stored as a truth value in a field of truth values, and as the
/// text in any field of texts.
pub proof fn truth_values_are_stored_as_such(yes: String, no: String)
    requires
        yes@ == "true"@,
        no@ == "false"@,
    ensures
        typed_value(Some("bool"@), MetadataValue::Text(yes)) == JsonView::Bool(true),
        typed_value(Some("bool"@), MetadataValue::Text(no)) == JsonView::Bool(false),
        typed_value(Some("keyword"@), MetadataValue::Text(yes)) == JsonView::Text("true"@),
        typed_value(None, MetadataValue::Text(no)) == JsonView::Text("false"@),
{
    reveal_strlit("bool");
    reveal_strlit("int");
    reveal_strlit("float");
    reveal_strlit("keyword");
    reveal_strlit("true");
    reveal_strlit("false");
    assert("bool"@.len() == 4);
    assert("int"@.len() == 3);
    assert("float"@.len() == 5);
    assert("keyword"@.len() == 7);
    assert("true"@.len() == 4);
    assert("false"@.len() == 5);
}

} // verus!
