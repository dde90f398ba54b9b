use vector_db_benchmark::json::{Json, JsonNumber};
use vector_db_benchmark::json_parse::parse_json;
use vector_db_benchmark::weaviate::engine::{
    build_grpc_request, extract_grpc_hits, plan_search, queries_to_run, query_tops, reported_top,
    transport_note, upload_batches, Environment, ReplyMetadata, Settings, Transport, WeaviateEngine,
};
use vector_db_benchmark::weaviate::filters::{build_weaviate_filter, parse_weaviate_conditions};
use vector_db_benchmark::weaviate::graphql::{
    build_graphql_body, extract_graphql_hits, json_to_graphql_literal,
};
use vector_db_benchmark::weaviate::grpc::{
    where_json_to_grpc_filters, Filters, Operator, TestValue,
};
use vector_db_benchmark::weaviate::ids::{id_to_uuid, uuid_to_int};
use vector_db_benchmark::weaviate::schema::{
    batch_body, check_batch_reply, chosen_ef, class_body, class_with_ef, coerce_metadata_value,
    map_weaviate_distance, weaviate_property, Row,
};
use vector_db_benchmark::readers::metadata::MetadataValue;
use vector_db_benchmark::query_filter::QueryConditions;

fn j(text: &str) -> Json {
    parse_json(text).unwrap()
}

fn at<'a>(v: &'a Json, key: &str) -> &'a Json {
    v.get(key).unwrap_or_else(|| panic!("no member {}", key))
}

fn text_at<'a>(v: &'a Json, key: &str) -> &'a str {
    at(v, key).as_str().unwrap()
}

fn list_at<'a>(v: &'a Json, key: &str) -> &'a Vec<Json> {
    at(v, key).as_array().unwrap()
}

fn components(values: &[f32]) -> Vec<String> {
    values.iter().map(|x| x.to_string()).collect()
}

fn float(text: &str) -> Json {
    Json::Number(JsonNumber::Float(text.to_string()))
}

#[test]
fn build_graphql_body_bytes_match_json_serialization() {
    let vec = vec![0.1f32, -0.2, 0.3];
    let top = 2usize;

    let vector_str = "0.1, -0.2, 0.3";
    let where_clause = String::new();
    let graphql = format!(
        r#"{{
            Get {{
                {class_name}(
                    nearVector: {{ vector: [{vector_str}] }},
                    limit: {top}
                    {where_clause}
                ) {{
                    _additional {{
                        id
                        distance
                    }}
                }}
            }}
        }}"#,
        class_name = "Bench",
        vector_str = vector_str,
        top = top,
        where_clause = where_clause,
    );
    let mut map = serde_json::Map::new();
    map.insert("query".to_string(), serde_json::Value::String(graphql));
    let expected = serde_json::to_vec(&serde_json::Value::Object(map)).unwrap();

    let body = build_graphql_body("Bench", &components(&vec), top, None);
    assert_eq!(body, expected);

    let decoded: serde_json::Value = serde_json::from_slice(&body).unwrap();
    let q = decoded["query"].as_str().unwrap();
    assert!(q.contains("vector: [0.1, -0.2, 0.3]"), "q={}", q);
    assert!(q.contains("limit: 2"), "q={}", q);
}

#[test]
fn graphql_literal_uses_bare_keys_and_enum_operator() {
    let f = build_weaviate_filter("color", "match", &j(r#"{"any": ["red", "blue"]}"#)).unwrap();
    let g = json_to_graphql_literal(&f);
    assert!(g.contains("operator: Or"), "g={}", g);
    assert!(g.contains("operator: Equal"), "g={}", g);
    assert!(g.contains("path: [\"color\"]"), "g={}", g);
    assert!(g.contains("valueText: \"red\""), "g={}", g);
    assert!(!g.contains("\"operator\""), "g={}", g);
    assert!(!g.contains("\"path\""), "g={}", g);
}

#[test]
fn graphql_literal_numbers_unquoted() {
    let f = j(r#"{"path": ["size"], "operator": "Equal", "valueInt": 3}"#);
    let g = json_to_graphql_literal(&f);
    assert!(g.contains("valueInt: 3"), "g={}", g);
    assert!(!g.contains("\"valueInt\""), "g={}", g);
}

#[test]
fn graphql_literals_quote_texts_as_json_does() {
    assert_eq!(json_to_graphql_literal(&Json::Text("a\nb".to_string())), r#""a\nb""#);
    let all: String = (0u32..300).filter_map(char::from_u32).collect();
    assert_eq!(
        json_to_graphql_literal(&Json::Text(all.clone())),
        serde_json::to_string(&all).unwrap()
    );
    assert_eq!(
        json_to_graphql_literal(&Json::Text("\u{1}\u{8}\u{c}\r\t\"\\\u{1f}\u{7f}é".to_string())),
        "\"\\u0001\\b\\f\\r\\t\\\"\\\\\\u001f\u{7f}é\""
    );
}

#[test]
fn match_any_string_list_emits_or_of_equal() {
    let c = build_weaviate_filter("color", "match", &j(r#"{"any": ["red", "blue"]}"#)).unwrap();
    assert_eq!(text_at(&c, "operator"), "Or");
    let ops = list_at(&c, "operands");
    assert_eq!(ops.len(), 2);
    assert_eq!(text_at(&ops[0], "operator"), "Equal");
    assert_eq!(at(&ops[0], "path"), &j(r#"["color"]"#));
    assert_eq!(text_at(&ops[0], "valueText"), "red");
    assert_eq!(text_at(&ops[1], "valueText"), "blue");
}

#[test]
fn match_any_int_list_emits_or_of_equal() {
    let c = build_weaviate_filter("size", "match", &j(r#"{"any": [1, 2, 3]}"#)).unwrap();
    assert_eq!(text_at(&c, "operator"), "Or");
    let ops = list_at(&c, "operands");
    assert_eq!(ops.len(), 3);
    assert_eq!(text_at(&ops[0], "operator"), "Equal");
    assert_eq!(at(&ops[0], "valueInt"), &j("1"));
}

#[test]
fn match_any_single_element_is_bare_equal() {
    let c = build_weaviate_filter("color", "match", &j(r#"{"any": ["red"]}"#)).unwrap();
    assert_eq!(text_at(&c, "operator"), "Equal");
    assert_eq!(text_at(&c, "valueText"), "red");
}

#[test]
fn match_any_empty_list_matches_nothing() {
    let c = build_weaviate_filter("color", "match", &j(r#"{"any": []}"#)).unwrap();
    assert_eq!(text_at(&c, "operator"), "And");
    let ops = list_at(&c, "operands");
    assert_eq!(text_at(&ops[0], "operator"), "Equal");
    assert_eq!(text_at(&ops[1], "operator"), "NotEqual");
    assert_eq!(at(&ops[0], "valueText"), at(&ops[1], "valueText"));
}

#[test]
fn match_exact_value_still_works() {
    let c = build_weaviate_filter("color", "match", &j(r#"{"value": "red"}"#)).unwrap();
    assert_eq!(text_at(&c, "operator"), "Equal");
    assert_eq!(text_at(&c, "valueText"), "red");
}

#[test]
fn match_non_scalar_value_dropped() {
    assert!(build_weaviate_filter("n", "match", &j(r#"{"value": {"x": 1}}"#)).is_none());
    assert!(build_weaviate_filter("n", "match", &j(r#"{"value": null}"#)).is_none());
}

#[test]
fn keyword_property_is_filterable_with_field_tokenization() {
    let p = weaviate_property("color", "keyword").unwrap();
    assert_eq!(at(&p, "dataType"), &j(r#"["text"]"#));
    assert_eq!(at(&p, "indexFilterable"), &Json::Bool(true));
    assert_eq!(text_at(&p, "tokenization"), "field");
    assert_eq!(at(&p, "indexSearchable"), &Json::Bool(true));
    assert!(p.get("indexInverted").is_none(), "p={:?}", p);
}

#[test]
fn labels_property_is_text_array() {
    let p = weaviate_property("labels", "keyword").unwrap();
    assert_eq!(at(&p, "dataType"), &j(r#"["text[]"]"#));
    assert_eq!(at(&p, "indexFilterable"), &Json::Bool(true));
    assert_eq!(text_at(&p, "tokenization"), "field");
}

#[test]
fn int_property_is_filterable_without_searchable() {
    let p = weaviate_property("size", "int").unwrap();
    assert_eq!(at(&p, "dataType"), &j(r#"["int"]"#));
    assert_eq!(at(&p, "indexFilterable"), &Json::Bool(true));
    assert!(p.get("indexSearchable").is_none(), "p={:?}", p);
    assert!(p.get("tokenization").is_none(), "p={:?}", p);
}

#[test]
fn unsupported_property_type_is_skipped() {
    assert!(weaviate_property("x", "bogus").is_none());
}

#[test]
fn coerce_int_string_to_json_number() {
    let v = MetadataValue::Text("1".to_string());
    assert_eq!(coerce_metadata_value(Some("int"), &v), j("1"));
    let f = MetadataValue::Text("1.5".to_string());
    assert_eq!(coerce_metadata_value(Some("float"), &f), j("1.5"));
}

#[test]
fn coerce_keyword_stays_string() {
    let v = MetadataValue::Text("red".to_string());
    assert_eq!(coerce_metadata_value(Some("keyword"), &v), j("\"red\""));
    assert_eq!(coerce_metadata_value(None, &v), j("\"red\""));
}

#[test]
fn or_only_emits_or_operator_with_two_operands() {
    let cond = j(r#"{"or":[
        {"a":{"match":{"value":"x"}}},
        {"b":{"match":{"value":"y"}}}
    ]}"#);
    let f = parse_weaviate_conditions(&cond).unwrap();
    assert_eq!(text_at(&f, "operator"), "Or");
    assert_eq!(list_at(&f, "operands").len(), 2);
}

#[test]
fn and_plus_or_wraps_both_groups_in_and() {
    let cond = j(r#"{
        "and":[{"a":{"match":{"value":"x"}}}],
        "or":[{"b":{"match":{"value":"y"}}},{"c":{"match":{"value":"z"}}}]
    }"#);
    let f = parse_weaviate_conditions(&cond).unwrap();
    assert_eq!(text_at(&f, "operator"), "And");
    let ops = list_at(&f, "operands");
    assert_eq!(ops.len(), 2);
    assert!(ops.iter().any(|o| text_at(o, "operator") == "Or"));
    assert!(ops.iter().any(|o| text_at(o, "operator") == "Equal"));
}

#[test]
fn range_single_ops_map_to_weaviate_operators() {
    for (op, wv) in [
        ("lt", "LessThan"),
        ("lte", "LessThanEqual"),
        ("gt", "GreaterThan"),
        ("gte", "GreaterThanEqual"),
    ] {
        let criteria = Json::Object(vec![(op.to_string(), j("5"))]);
        let f = build_weaviate_filter("n", "range", &criteria).unwrap();
        assert_eq!(text_at(&f, "operator"), wv, "op={}", op);
        assert_eq!(at(&f, "path"), &j(r#"["n"]"#));
        assert_eq!(at(&f, "valueInt"), &j("5"));
    }
}

#[test]
fn range_float_bound_uses_value_number() {
    let f = build_weaviate_filter("n", "range", &j(r#"{"lt":1.5}"#)).unwrap();
    assert_eq!(text_at(&f, "operator"), "LessThan");
    assert_eq!(at(&f, "valueNumber"), &j("1.5"));
}

#[test]
fn range_two_sided_gte_lt_wraps_in_and() {
    let f = build_weaviate_filter("n", "range", &j(r#"{"gte":10,"lt":20}"#)).unwrap();
    assert_eq!(text_at(&f, "operator"), "And");
    let ops = list_at(&f, "operands");
    assert_eq!(ops.len(), 2);
    assert_eq!(text_at(&ops[0], "operator"), "LessThan");
    assert_eq!(at(&ops[0], "valueInt"), &j("20"));
    assert_eq!(text_at(&ops[1], "operator"), "GreaterThanEqual");
    assert_eq!(at(&ops[1], "valueInt"), &j("10"));
}

#[test]
fn range_unknown_op_is_none() {
    assert!(build_weaviate_filter("n", "range", &j(r#"{"foo":5}"#)).is_none());
}

#[test]
fn range_null_bound_is_none() {
    assert!(build_weaviate_filter("n", "range", &j(r#"{"gte":null}"#)).is_none());
}

#[test]
fn geo_with_radius_emits_within_geo_range() {
    let f = build_weaviate_filter("loc", "geo", &j(r#"{"lat":20.0,"lon":10.0,"radius":500}"#))
        .unwrap();
    assert_eq!(text_at(&f, "operator"), "WithinGeoRange");
    let range = at(&f, "valueGeoRange");
    assert_eq!(at(at(range, "geoCoordinates"), "latitude"), &float("20.0"));
    assert_eq!(at(at(range, "geoCoordinates"), "longitude"), &float("10.0"));
    assert_eq!(at(at(range, "distance"), "max"), &float("500.0"));
}

#[test]
fn geo_without_radius_uses_default_1000() {
    let f = build_weaviate_filter("loc", "geo", &j(r#"{"lat":20.0,"lon":10.0}"#)).unwrap();
    assert_eq!(at(at(at(&f, "valueGeoRange"), "distance"), "max"), &float("1000.0"));
}

#[test]
fn geo_missing_lat_or_lon_is_none() {
    assert!(build_weaviate_filter("loc", "geo", &j(r#"{"lon":10.0,"radius":5}"#)).is_none());
    assert!(build_weaviate_filter("loc", "geo", &j(r#"{"lat":20.0,"radius":5}"#)).is_none());
}

#[test]
fn distance_mapping_covers_all_arms() {
    assert_eq!(map_weaviate_distance("l2").unwrap(), "l2-squared");
    assert_eq!(map_weaviate_distance("euclidean").unwrap(), "l2-squared");
    assert_eq!(map_weaviate_distance("cosine").unwrap(), "cosine");
    assert_eq!(map_weaviate_distance("angular").unwrap(), "cosine");
    assert_eq!(map_weaviate_distance("dot").unwrap(), "dot");
    assert_eq!(map_weaviate_distance("ip").unwrap(), "dot");
    assert_eq!(map_weaviate_distance("COSINE").unwrap(), "cosine");
    assert!(map_weaviate_distance("nope").is_err());
}

#[test]
fn exact_match_int_float_bool_use_correct_value_key() {
    let i = build_weaviate_filter("n", "match", &j(r#"{"value":5}"#)).unwrap();
    assert_eq!(text_at(&i, "operator"), "Equal");
    assert_eq!(at(&i, "valueInt"), &j("5"));

    let fl = build_weaviate_filter("n", "match", &j(r#"{"value":1.5}"#)).unwrap();
    assert_eq!(at(&fl, "valueNumber"), &j("1.5"));

    let b = build_weaviate_filter("flag", "match", &j(r#"{"value":true}"#)).unwrap();
    assert_eq!(at(&b, "valueBoolean"), &Json::Bool(true));
}

#[test]
fn exact_match_array_value_is_none() {
    assert!(build_weaviate_filter("n", "match", &j(r#"{"value":[1,2]}"#)).is_none());
}

fn grpc_filters_for(conditions: &str) -> Filters {
    let where_tree =
        parse_weaviate_conditions(&j(conditions)).expect("conditions must produce a where-tree");
    where_json_to_grpc_filters(&where_tree).expect("where-tree must translate to gRPC")
}

fn property_of(f: &Filters) -> &str {
    f.target.as_ref().unwrap().as_str()
}

#[test]
fn grpc_match_keyword_maps_to_equal_value_text() {
    let f = grpc_filters_for(r#"{"and":[{"color":{"match":{"value":"red"}}}]}"#);
    assert_eq!(f.operator, Operator::Equal);
    assert_eq!(property_of(&f), "color");
    assert_eq!(f.test_value, Some(TestValue::ValueText("red".into())));
    assert!(f.filters.is_empty());
}

#[test]
fn grpc_match_int_maps_to_equal_value_int() {
    let f = grpc_filters_for(r#"{"and":[{"size":{"match":{"value":7}}}]}"#);
    assert_eq!(f.operator, Operator::Equal);
    assert_eq!(property_of(&f), "size");
    assert_eq!(f.test_value, Some(TestValue::ValueInt(7)));
}

#[test]
fn grpc_match_bool_maps_to_equal_value_boolean() {
    let f = grpc_filters_for(r#"{"and":[{"flag":{"match":{"value":true}}}]}"#);
    assert_eq!(f.operator, Operator::Equal);
    assert_eq!(f.test_value, Some(TestValue::ValueBoolean(true)));
}

#[test]
fn grpc_match_any_maps_to_or_of_equals() {
    let f = grpc_filters_for(r#"{"and":[{"color":{"match":{"any":["red","blue"]}}}]}"#);
    assert_eq!(f.operator, Operator::Or);
    assert_eq!(f.filters.len(), 2);
    for (child, want) in f.filters.iter().zip(["red", "blue"]) {
        assert_eq!(child.operator, Operator::Equal);
        assert_eq!(property_of(child), "color");
        assert_eq!(child.test_value, Some(TestValue::ValueText(want.into())));
    }
}

#[test]
fn grpc_match_any_int_maps_to_or_of_equal_value_int() {
    let f = grpc_filters_for(r#"{"and":[{"size":{"match":{"any":[1,2]}}}]}"#);
    assert_eq!(f.operator, Operator::Or);
    assert_eq!(f.filters.len(), 2);
    assert_eq!(f.filters[0].test_value, Some(TestValue::ValueInt(1)));
    assert_eq!(f.filters[1].test_value, Some(TestValue::ValueInt(2)));
}

#[test]
fn grpc_range_two_sided_maps_to_and_of_less_and_greater() {
    let f = grpc_filters_for(r#"{"and":[{"n":{"range":{"gte":10,"lt":20}}}]}"#);
    assert_eq!(f.operator, Operator::And);
    assert_eq!(f.filters.len(), 2);
    assert_eq!(f.filters[0].operator, Operator::LessThan);
    assert_eq!(f.filters[0].test_value, Some(TestValue::ValueInt(20)));
    assert_eq!(f.filters[1].operator, Operator::GreaterThanEqual);
    assert_eq!(f.filters[1].test_value, Some(TestValue::ValueInt(10)));
}

#[test]
fn grpc_range_float_bound_uses_value_number() {
    let f = grpc_filters_for(r#"{"and":[{"n":{"range":{"lt":1.5}}}]}"#);
    assert_eq!(f.operator, Operator::LessThan);
    assert_eq!(
        f.test_value,
        Some(TestValue::ValueNumber(JsonNumber::Float("1.5".to_string())))
    );
}

#[test]
fn grpc_or_group_maps_to_or_operator() {
    let f = grpc_filters_for(
        r#"{"or":[{"a":{"match":{"value":"x"}}},{"b":{"match":{"value":"y"}}}]}"#,
    );
    assert_eq!(f.operator, Operator::Or);
    assert_eq!(f.filters.len(), 2);
    assert_eq!(property_of(&f.filters[0]), "a");
    assert_eq!(property_of(&f.filters[1]), "b");
}

#[test]
fn grpc_and_plus_or_nests_both_groups_under_and() {
    let f = grpc_filters_for(
        r#"{
        "and":[{"a":{"match":{"value":"x"}}}],
        "or":[{"b":{"match":{"value":"y"}}},{"c":{"match":{"value":"z"}}}]
    }"#,
    );
    assert_eq!(f.operator, Operator::And);
    assert_eq!(f.filters.len(), 2);
    assert!(f.filters.iter().any(|c| c.operator == Operator::Or));
    assert!(f.filters.iter().any(|c| c.operator == Operator::Equal));
}

#[test]
fn grpc_geo_maps_to_within_geo_range_value_geo() {
    let leaf = build_weaviate_filter("loc", "geo", &j(r#"{"lat":20.0,"lon":10.0,"radius":500}"#))
        .unwrap();
    let f = where_json_to_grpc_filters(&leaf).unwrap();
    assert_eq!(f.operator, Operator::WithinGeoRange);
    assert_eq!(property_of(&f), "loc");
    match f.test_value.unwrap() {
        TestValue::ValueGeo { latitude, longitude, distance } => {
            assert_eq!(latitude, JsonNumber::Float("20.0".to_string()));
            assert_eq!(longitude, JsonNumber::Float("10.0".to_string()));
            assert_eq!(distance, JsonNumber::Float("500.0".to_string()));
        }
        other => panic!("expected ValueGeo, got {:?}", other),
    }
}

#[test]
fn grpc_non_scalar_equal_value_is_untranslatable() {
    let leaf = j(r#"{"path": ["n"], "operator": "Equal", "valueText": [1, 2]}"#);
    assert!(where_json_to_grpc_filters(&leaf).is_none());
}

#[test]
fn grpc_empty_match_any_maps_to_unsatisfiable_and() {
    let f = grpc_filters_for(r#"{"and":[{"color":{"match":{"any":[]}}}]}"#);
    assert_eq!(f.operator, Operator::And);
    assert_eq!(f.filters.len(), 2);
    assert_eq!(f.filters[0].operator, Operator::Equal);
    assert_eq!(f.filters[1].operator, Operator::NotEqual);
    assert_eq!(f.filters[0].test_value, f.filters[1].test_value);
}

#[test]
fn whole_numbers_are_written_as_doubles_where_a_place_is_meant() {
    let f = build_weaviate_filter("loc", "geo", &j(r#"{"lat":20,"lon":-3,"radius":2}"#)).unwrap();
    let range = at(&f, "valueGeoRange");
    assert_eq!(at(at(range, "geoCoordinates"), "latitude"), &float("20.0"));
    assert_eq!(at(at(range, "geoCoordinates"), "longitude"), &float("-3.0"));
    assert_eq!(at(at(range, "distance"), "max"), &float("2.0"));
    let big = build_weaviate_filter("n", "range", &j(r#"{"lt":18446744073709551615}"#)).unwrap();
    assert_eq!(at(&big, "valueNumber"), &j("18446744073709551615"));
}

#[test]
fn identifiers_of_rows_read_back() {
    assert_eq!(id_to_uuid(0), "00000000-0000-0000-0000-000000000000");
    assert_eq!(id_to_uuid(258), "00000000-0000-0000-0000-000000000102");
    for id in [0i64, 1, 42, 1_000_000, i64::MAX] {
        assert_eq!(uuid_to_int(&id_to_uuid(id)), Ok(id));
    }
    assert!(uuid_to_int("not a uuid").is_err());
}

#[test]
fn graphql_hits_are_read_or_the_reply_is_refused() {
    let good = j(r#"{"data":{"Get":{"Bench":[
        {"_additional":{"id":"00000000-0000-0000-0000-000000000007","distance":0.5}}
    ]}}}"#);
    let hits = extract_graphql_hits(&good, "Bench", "").unwrap();
    assert_eq!(hits.len(), 1);
    assert_eq!(hits[0].0, 7);
    assert_eq!(hits[0].1, JsonNumber::Float("0.5".to_string()));
    assert_eq!(
        extract_graphql_hits(&j("{}"), "Bench", "").unwrap_err(),
        "Missing results in GraphQL response"
    );
}

#[test]
fn grpc_hits_are_read() {
    let rows = vec![
        Some(ReplyMetadata {
            id: "00000000-0000-0000-0000-000000000003".to_string(),
            distance: 0.25f32.to_bits(),
        }),
        None,
    ];
    assert_eq!(extract_grpc_hits(&rows).unwrap(), vec![(3, 0.25f32.to_bits())]);
    let bad = vec![Some(ReplyMetadata { id: "x".to_string(), distance: 0 })];
    assert!(extract_grpc_hits(&bad).is_err());
}

#[test]
fn batches_cover_every_row_once() {
    assert_eq!(upload_batches(10, 4), vec![(0, 4), (4, 8), (8, 10)]);
    assert_eq!(upload_batches(8, 4), vec![(0, 4), (4, 8)]);
    assert!(upload_batches(0, 4).is_empty());
}

#[test]
fn searches_fall_back_where_a_filter_has_no_message() {
    let conditions = QueryConditions::new(vec![
        Some(j(r#"{"and":[{"color":{"match":{"value":"red"}}}]}"#)),
        None,
    ]);
    let filters = conditions.resolve_all("weaviate", parse_weaviate_conditions).unwrap();
    let plan = plan_search(true, &filters);
    assert!(matches!(plan.transport, Transport::Grpc));
    assert_eq!(plan.num_filtered, 1);
    assert_eq!(plan.untranslatable, 0);
    assert!(plan.grpc_filters[0].is_some() && plan.grpc_filters[1].is_none());
    assert!(!transport_note(true, &plan).is_empty());
    let without = plan_search(false, &filters);
    assert!(matches!(without.transport, Transport::Graphql));
}

#[test]
fn numbers_of_queries_and_results_follow_the_request() {
    assert_eq!(queries_to_run(-1, 100), 100);
    assert_eq!(queries_to_run(10, 100), 10);
    assert_eq!(queries_to_run(1000, 100), 100);
    let neighbours = vec![vec![1, 2, 3], vec![4]];
    assert_eq!(query_tops(None, &neighbours, 2), vec![3, 1]);
    assert_eq!(query_tops(Some(10), &neighbours, 2), vec![10, 10]);
    assert_eq!(reported_top(None, &neighbours), 3);
    assert_eq!(reported_top(None, &[]), 10);
    assert_eq!(reported_top(Some(5), &[]), 5);
}

#[test]
fn requests_carry_the_vector_as_little_endian_bytes() {
    let r = build_grpc_request("Bench", &[1.0f32.to_bits()], 5, None);
    assert_eq!(r.collection, "Bench");
    assert_eq!(r.limit, 5);
    assert_eq!(r.vector_bytes, 1.0f32.to_le_bytes().to_vec());
}

#[test]
fn classes_are_described_and_tuned() {
    let schema = j(r#"{"color": "keyword", "x": "bogus"}"#);
    let class = class_body("Bench", "cosine", Some(&schema), &j(r#"{"efConstruction": 128}"#));
    assert_eq!(text_at(&class, "class"), "Bench");
    let tuned = class_with_ef(&class, 64).unwrap();
    assert_eq!(at(at(&tuned, "vectorIndexConfig"), "ef"), &j("64"));
    assert!(class_with_ef(&j("1"), 64).is_err());
    assert_eq!(chosen_ef(Some(&j(r#"{"ef": 32}"#)), Some(64)), Some(32));
    assert_eq!(chosen_ef(None, Some(64)), Some(64));
    assert_eq!(chosen_ef(None, None), None);
}

#[test]
fn batches_are_written_and_their_replies_checked() {
    let rows = vec![Row {
        id: 1,
        fields: vec![("size".to_string(), MetadataValue::Text("3".to_string()))],
        vector: j("[0.5]"),
    }];
    let body = batch_body("Bench", &rows, &vec![("size".to_string(), "int".to_string())]);
    let objects = list_at(&body, "objects");
    assert_eq!(objects.len(), 1);
    assert_eq!(text_at(&objects[0], "id"), id_to_uuid(1));
    assert_eq!(at(at(&objects[0], "properties"), "size"), &j("3"));
    assert!(check_batch_reply(&j(r#"[{"result":{"status":"SUCCESS"}}]"#)).is_ok());
    assert!(check_batch_reply(
        &j(r#"[{"result":{"status":"FAILED","errors":{"error":[{"message":"no"}]}}}]"#)
    )
    .is_err());
}

#[test]
fn engines_are_configured_from_their_settings() {
    let settings = Settings {
        name: "weaviate-x".to_string(),
        connection_params: None,
        upload_params: Some(j(r#"{"parallel": 4}"#)),
        collection_extra: None,
    };
    let env = Environment { http_port: None, grpc_port: None, class_name: None, api_key: None };
    let e = WeaviateEngine::new(&settings, &env, "localhost");
    assert_eq!(e.name, "weaviate-x");
    assert_eq!(e.class_name, "Benchmark");
    assert_eq!(e.parallel, 4);
    assert_eq!(e.batch_size, 1024);
}

#[test]
fn texts_become_the_numbers_of_a_typed_field() {
    let text = |s: &str| MetadataValue::Text(s.to_string());
    assert_eq!(coerce_metadata_value(Some("float"), &text("1.50")), j("1.5"));
    assert_eq!(coerce_metadata_value(Some("float"), &text("2")), j("2.0"));
    assert_eq!(coerce_metadata_value(Some("float"), &text("inf")), Json::Null);
    assert_eq!(coerce_metadata_value(Some("float"), &text("x")), j(r#""x""#));
    assert_eq!(coerce_metadata_value(Some("bool"), &text("true")), Json::Bool(true));
    assert_eq!(coerce_metadata_value(Some("bool"), &text("yes")), j(r#""yes""#));
}
