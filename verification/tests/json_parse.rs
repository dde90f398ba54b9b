use vector_db_benchmark::json::{Json, JsonNumber};
use vector_db_benchmark::json_parse::parse_json;

fn float(text: &str) -> Json {
    Json::Number(JsonNumber::Float(text.to_string()))
}

#[test]
fn every_kind_of_value_is_read() {
    let text = r#"{"b": [null, true, -1, 7, 0.5, "x\u0041"], "a": {"deep": []}}"#;
    assert_eq!(
        parse_json(text),
        Ok(Json::Object(vec![
            (
                "a".to_string(),
                Json::Object(vec![("deep".to_string(), Json::Array(vec![]))])
            ),
            (
                "b".to_string(),
                Json::Array(vec![
                    Json::Null,
                    Json::Bool(true),
                    Json::Number(JsonNumber::NegInt(-1)),
                    Json::Number(JsonNumber::PosInt(7)),
                    float("0.5"),
                    Json::Text("xA".to_string()),
                ])
            ),
        ]))
    );
}

#[test]
fn whole_numbers_of_sixty_four_bits_are_kept() {
    let number = |text: &str| parse_json(text).unwrap();
    assert_eq!(number("18446744073709551615"), Json::Number(JsonNumber::PosInt(u64::MAX)));
    assert_eq!(number("-9223372036854775808"), Json::Number(JsonNumber::NegInt(i64::MIN)));
    assert_eq!(number("1e3"), float("1000.0"));
    assert_eq!(number("2.0"), float("2.0"));
}

#[test]
fn the_last_of_two_members_of_a_name_counts() {
    assert_eq!(parse_json(r#"{"a": 1, "a": 2}"#), parse_json(r#"{"a": 2}"#));
}

#[test]
fn a_text_that_is_no_json_is_refused() {
    assert_eq!(parse_json("").unwrap_err(), "EOF while parsing a value at line 1 column 0");
    assert_eq!(parse_json("[1] x").unwrap_err(), "trailing characters at line 1 column 5");
}
