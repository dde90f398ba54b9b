use vector_db_benchmark::json::Json;
use vector_db_benchmark::json_parse::parse_json;
use vector_db_benchmark::query_filter::QueryConditions;
use vector_db_benchmark::weaviate::engine::{next_batch, upload_batches, ReplyMetadata};
use vector_db_benchmark::weaviate::graphql::{build_graphql_body, read_graphql_reply};
use vector_db_benchmark::weaviate::http::{
    authorization, batch_url, check_batch_stored, check_class_created, check_class_deleted,
    check_class_updated, check_query_answered, class_url, graphql_url, is_success, read_class,
    schema_url, HttpReply,
};
use vector_db_benchmark::weaviate::ids::id_to_uuid;
use vector_db_benchmark::weaviate::schema::schema_types;
use vector_db_benchmark::weaviate::search::{
    judge_answer, judge_message, prepare_search, Payloads, PreparedSearch,
};

fn j(text: &str) -> Json {
    parse_json(text).unwrap()
}

fn prepare(
    conditions: Vec<Option<Json>>,
    num_queries: i64,
    endpoint_available: bool,
) -> Result<PreparedSearch, String> {
    let vectors = [vec![0.5f32, 1.0], vec![2.0, -1.0]];
    let queries: Vec<Vec<u32>> =
        vectors.iter().map(|v| v.iter().map(|x| x.to_bits()).collect()).collect();
    let components: Vec<Vec<String>> =
        vectors.iter().map(|v| v.iter().map(|x| x.to_string()).collect()).collect();
    prepare_search(
        "Bench",
        &queries,
        &components,
        &[vec![1, 2, 3], vec![]],
        &QueryConditions::new(conditions).from_dataset("glove"),
        None,
        num_queries,
        endpoint_available,
    )
}

fn red() -> Json {
    j(r#"{"and":[{"color":{"match":{"value":"red"}}}]}"#)
}

#[test]
fn a_run_is_prepared_for_one_transport() {
    let s = prepare(vec![Some(red()), None], -1, true).unwrap();
    assert_eq!(s.tops, vec![3, 10]);
    assert_eq!(
        s.note,
        "grpc (1 of 2 queries carry a filter, translated to the gRPC Filters message)"
    );
    let requests = match s.payloads {
        Payloads::Grpc(r) => r,
        Payloads::Graphql(_) => panic!("messages can express this filter"),
    };
    assert_eq!(requests.len(), 2);
    assert!(requests[0].filters.is_some());
    assert!(requests[1].filters.is_none());
    assert_eq!(requests[0].limit, 3);
    assert_eq!(requests[1].vector_bytes, [2.0f32.to_le_bytes(), (-1.0f32).to_le_bytes()].concat());

    let s = prepare(vec![None, Some(red())], 1, false).unwrap();
    assert_eq!(s.tops, vec![3]);
    assert_eq!(s.note, "graphql");
    match s.payloads {
        Payloads::Graphql(bodies) => assert_eq!(
            bodies,
            vec![build_graphql_body(
                "Bench",
                &["0.5".to_string(), "1".to_string()],
                3,
                None
            )]
        ),
        Payloads::Grpc(_) => panic!("there is no endpoint"),
    }
}

#[test]
fn a_filter_that_cannot_be_searched_for_stops_the_run() {
    let e = match prepare(vec![None, Some(j(r#"{"and":[]}"#))], 1, true) {
        Err(e) => e,
        Ok(_) => panic!("the filter must not be dropped"),
    };
    assert!(e.starts_with("Weaviate cannot express the filter on query 1"), "{e}");
    assert!(e.contains("glove"), "{e}");
}

#[test]
fn replies_are_measured_against_the_ground_truth() {
    let hit = |id: i64| Some(ReplyMetadata { id: id_to_uuid(id), distance: 0 });
    let m = judge_message(4, Ok(vec![hit(9), hit(1), None]), &[1, 2], 2).unwrap();
    assert_eq!((m.recall.numerator, m.recall.denominator), (1, 2));
    assert_eq!((m.mrr.numerator, m.mrr.denominator), (1, 2));
    let e = match judge_message(4, Err("gRPC search failed: x".to_string()), &[1], 1) {
        Err(e) => e,
        Ok(_) => panic!("a failed request has no metrics"),
    };
    assert_eq!(e, "Search query 4 failed: gRPC search failed: x");

    let body = format!(
        r#"{{"data":{{"Get":{{"Bench":[{{"_additional":{{"id":"{}","distance":0.5}}}}]}}}}}}"#,
        id_to_uuid(2)
    );
    let answer = |body: &str| read_graphql_reply(&reply(200, "200 OK", body));
    let m = judge_answer(0, &answer(&body), "Bench", &[1, 2], 2).unwrap();
    assert_eq!((m.recall.numerator, m.recall.denominator), (1, 2));
    assert_eq!((m.precision.numerator, m.precision.denominator), (1, 1));
    let refused = |body: &str| match judge_answer(7, &answer(body), "Bench", &[1], 1) {
        Err(e) => e,
        Ok(_) => panic!("{body} has no metrics"),
    };
    assert_eq!(
        refused(r#"{"errors":[1, {"message": "no"}]}"#),
        "Search query 7 failed: GraphQL errors: [Number(1), Object {\"message\": String(\"no\")}]"
    );
    assert_eq!(refused("{}"), "Search query 7 failed: Missing results in GraphQL response");
    assert_eq!(
        refused("nope"),
        "Search query 7 failed: Failed to parse GraphQL response: expected ident at line 1 column 2"
    );
    let e = match judge_answer(
        7,
        &read_graphql_reply(&reply(500, "500 Internal Server Error", "oops")),
        "Bench",
        &[1],
        1,
    ) {
        Err(e) => e,
        Ok(_) => panic!("a refused query has no metrics"),
    };
    assert_eq!(
        e,
        "Search query 7 failed: GraphQL search error: 500 Internal Server Error oops"
    );
}

#[test]
fn workers_take_batches_until_one_fails() {
    let batches = upload_batches(10, 4);
    assert_eq!(next_batch(&batches, 0, false), Some((0, 4)));
    assert_eq!(next_batch(&batches, 2, false), Some((8, 10)));
    assert_eq!(next_batch(&batches, 3, false), None);
    assert_eq!(next_batch(&batches, 1, true), None);
}

fn reply(code: u16, shown: &str, body: &str) -> HttpReply {
    HttpReply { code, status_shown: shown.to_string(), body: body.to_string() }
}

#[test]
fn replies_are_told_apart_by_their_status() {
    let good = reply(200, "200 OK", "");
    let gone = reply(404, "404 Not Found", "nothing");
    let bad = reply(500, "500 Internal Server Error", "oops");
    assert!(is_success(&good) && is_success(&reply(299, "", "")));
    assert!(!is_success(&reply(300, "", "")) && !is_success(&reply(199, "", "")));
    assert_eq!(check_class_deleted(&good), Ok(()));
    assert_eq!(check_class_deleted(&gone), Ok(()));
    assert_eq!(
        check_class_deleted(&bad),
        Err("Failed to delete class: 500 Internal Server Error oops".to_string())
    );
    assert_eq!(
        check_class_created(&gone),
        Err("Failed to create class: 404 Not Found nothing".to_string())
    );
    assert_eq!(
        read_class("Bench", &gone),
        Err("Failed to GET class Bench for ef update: 404 Not Found nothing".to_string())
    );
    assert_eq!(
        check_class_updated(64, &bad),
        Err("Failed to update vectorIndexConfig ef=64: 500 Internal Server Error oops".to_string())
    );
    assert_eq!(
        check_query_answered(&bad),
        Err("GraphQL search error: 500 Internal Server Error oops".to_string())
    );
    assert_eq!(check_class_created(&good), Ok(()));
    assert_eq!(
        read_class("Bench", &reply(200, "200 OK", r#"{"class": "Bench"}"#)),
        Ok(j(r#"{"class": "Bench"}"#))
    );
    assert_eq!(
        read_class("Bench", &good),
        Err("Failed to parse class JSON for ef update: EOF while parsing a value at line 1 column 0".to_string())
    );
    assert_eq!(check_class_updated(64, &good), Ok(()));
    assert_eq!(check_query_answered(&good), Ok(()));
}

#[test]
fn objects_that_were_not_stored_fail_a_batch() {
    let good = reply(200, "200 OK", "");
    let failed = r#"[{"result":{"status":"FAILED","errors":{"error":[{"message":"no"}]}}}]"#;
    assert_eq!(check_batch_stored(&good), Ok(()));
    assert_eq!(check_batch_stored(&reply(200, "200 OK", "no json")), Ok(()));
    assert_eq!(
        check_batch_stored(&reply(200, "200 OK", failed)),
        Err("Batch object import failed (status FAILED): no".to_string())
    );
    assert_eq!(
        check_batch_stored(&reply(422, "422 Unprocessable Entity", failed)),
        Err(format!("Batch upload error: 422 Unprocessable Entity {failed}"))
    );
}

#[test]
fn addresses_are_built_on_the_base() {
    assert_eq!(class_url("http://h:8080", "Bench"), "http://h:8080/v1/schema/Bench");
    assert_eq!(schema_url("http://h:8080"), "http://h:8080/v1/schema");
    assert_eq!(batch_url("http://h:8080"), "http://h:8080/v1/batch/objects");
    assert_eq!(graphql_url("http://h:8080"), "http://h:8080/v1/graphql");
    assert_eq!(authorization("k"), "Bearer k");
}

#[test]
fn only_typed_fields_are_coerced() {
    let schema = j(r#"{"size": "int", "odd": 3, "color": "keyword"}"#);
    assert_eq!(
        schema_types(Some(&schema)),
        vec![
            ("color".to_string(), "keyword".to_string()),
            ("size".to_string(), "int".to_string())
        ]
    );
    assert!(schema_types(None).is_empty());
    assert!(schema_types(Some(&j("[]"))).is_empty());
}
