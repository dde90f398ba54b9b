use vector_db_benchmark::json::Json;
use vector_db_benchmark::json_parse::parse_json;
use vector_db_benchmark::json_text::compact;
use vector_db_benchmark::query_filter::{resolve, QueryConditions};

fn j(text: &str) -> Json {
    parse_json(text).unwrap()
}

fn toy(conditions: &Json) -> Option<String> {
    let leaf = conditions.get("and")?.as_array()?.first()?;
    let (field, spec) = leaf.as_object()?.iter().next()?;
    let value = spec.get("match")?.get("value")?.as_str()?;
    Some(format!("@{field}:{{{value}}}"))
}

fn conds(rows: Vec<Option<Json>>) -> QueryConditions {
    QueryConditions::new(rows)
}

#[test]
fn query_filter_absent_conditions_are_unfiltered_not_an_error() {
    let resolved = conds(vec![None, None]).resolve_all("Toy", toy).unwrap();
    assert!(resolved.iter().all(|f| !f.is_filtered()));
}

#[test]
fn query_filter_explicit_json_null_is_unfiltered_not_an_error() {
    let resolved = conds(vec![Some(Json::Null), Some(Json::Null), Some(Json::Null)])
        .resolve_all("Toy", toy)
        .unwrap();
    assert_eq!(resolved.len(), 3);
    assert!(resolved.iter().all(|f| !f.is_filtered()));
}

#[test]
fn query_filter_empty_object_is_unfiltered_not_an_error() {
    let resolved = conds(vec![Some(j("{}"))]).resolve_all("Toy", toy).unwrap();
    assert!(!resolved[0].is_filtered());
}

#[test]
fn query_filter_an_expressible_filter_resolves() {
    let resolved = conds(vec![Some(j(r#"{"and":[{"a":{"match":{"value":"red"}}}]}"#))])
        .resolve_all("Toy", toy)
        .unwrap();
    assert_eq!(resolved[0].as_ref().map(String::as_str), Some("@a:{red}"));
    assert_eq!(resolved[0].as_deref(), Some("@a:{red}"));
}

#[test]
fn query_filter_a_declared_filter_that_parses_to_nothing_is_an_error() {
    for shape in [
        r#"{"and":[{"a":{"geo_radius":{"lat":1.0,"lon":2.0,"radius":3.0}}}]}"#,
        r#"{"and":[]}"#,
        r#"{"or":[{"and":[]}]}"#,
        r#"{"a":{"match":{"value":"red"}}}"#,
        r#"{"and":[{"a":{"match":{"value":7}}}]}"#,
    ] {
        let err = match conds(vec![Some(j(shape))]).resolve_all("Toy", toy) {
            Err(e) => e,
            Ok(_) => panic!("{shape}"),
        };
        assert!(err.contains("UNFILTERED"), "{shape}: {err}");
        assert!(err.contains("#219"), "{shape}: {err}");
    }
}

#[test]
fn query_filter_the_failing_query_index_is_named() {
    let err = match conds(vec![
        Some(j(r#"{"and":[{"a":{"match":{"value":"red"}}}]}"#)),
        Some(Json::Null),
        Some(j(r#"{"and":[]}"#)),
    ])
    .resolve_all("Toy", toy)
    {
        Err(e) => e,
        Ok(_) => panic!("must be refused"),
    };
    assert!(err.contains("query 2"), "{err}");
}

#[test]
fn query_filter_a_builders_own_error_propagates_unchanged() {
    let err = match conds(vec![Some(j(r#"{"and":[]}"#))])
        .try_resolve_all::<(), _>("Toy", |_| Err("nope".to_string()))
    {
        Err(e) => e,
        Ok(_) => panic!("must be refused"),
    };
    assert_eq!(err, "nope");
}

#[test]
fn query_filter_try_resolve_all_ok_none_on_a_declared_filter_is_still_an_error() {
    let err = match conds(vec![Some(j(r#"{"and":[{"a":{"match":{"value":"x"}}}]}"#))])
        .try_resolve_all::<(), _>("Toy", |_| Ok(None))
    {
        Err(e) => e,
        Ok(_) => panic!("must be refused"),
    };
    assert!(err.contains("UNFILTERED"), "{err}");
}

#[test]
fn resolve_all_total_uses_the_unfiltered_value_only_for_absent_conditions() {
    let out = conds(vec![Some(Json::Null), Some(j(r#"{"a":1}"#))])
        .resolve_all_total(|| "*".to_string(), |c| Ok(compact(c)))
        .unwrap();
    assert_eq!(out, vec!["*".to_string(), "{\"a\":1}".to_string()]);
}

#[test]
fn query_filter_only_a_declared_filter_becomes_a_filter() {
    let resolved = conds(vec![
        None,
        Some(Json::Null),
        Some(j("{}")),
        Some(j(r#"{"and":[{"a":{"match":{"value":"x"}}}]}"#)),
    ])
    .resolve_all("Toy", toy)
    .unwrap();
    assert_eq!(
        resolved.iter().map(|f| f.is_filtered()).collect::<Vec<_>>(),
        vec![false, false, false, true]
    );
}

#[test]
fn a_match_all_sentinel_is_a_drop_not_an_unfiltered_query() {
    let sentinel = "*";
    let render = |c: &Json| -> Result<Option<String>, String> {
        let rendered = toy(c).unwrap_or_else(|| sentinel.to_string());
        Ok((rendered != sentinel).then_some(rendered))
    };
    let out = conds(vec![Some(Json::Null)]).try_resolve_all("Toy", render).unwrap();
    assert!(!out[0].is_filtered());
    let err = match conds(vec![Some(j(r#"{"and":[]}"#))]).try_resolve_all("Toy", render) {
        Err(e) => e,
        Ok(_) => panic!("must be refused"),
    };
    assert!(err.contains("UNFILTERED"), "{err}");
}

#[test]
fn the_echo_escape_still_cannot_unfilter_a_declared_query() {
    let out = conds(vec![Some(Json::Null), Some(j(r#"{"and":[]}"#))])
        .resolve_all("Toy", |v| Some(v.clone()))
        .unwrap();
    assert!(!out[0].is_filtered(), "an absent condition yields no JSON");
    assert_eq!(out[1].as_ref(), Some(&j(r#"{"and":[]}"#)));
}

#[test]
fn query_conditions_reports_its_shape_without_exposing_it() {
    let c = conds(vec![Some(Json::Null), Some(j(r#"{"and":[]}"#))]);
    assert_eq!(c.len(), 2);
    assert_eq!(c.declared_count(), 1);
    assert!(!c.is_empty());
}

#[test]
fn the_dataset_name_is_named_in_the_error() {
    let err = match QueryConditions::new(vec![Some(j(r#"{"and":[]}"#))])
        .from_dataset("random-geo-radius-100-angular-filters")
        .resolve_all("Toy", toy)
    {
        Err(e) => e,
        Ok(_) => panic!("must be refused"),
    };
    assert!(err.contains("random-geo-radius-100-angular-filters"), "{err}");
}

#[test]
fn unfiltered_conditions_declare_nothing() {
    let c = QueryConditions::unfiltered(4);
    assert_eq!(c.len(), 4);
    assert_eq!(c.declared_count(), 0);
    assert!(c.resolve_all("Toy", toy).unwrap().iter().all(|f| !f.is_filtered()));
}

#[test]
fn a_single_query_is_resolved_like_a_list_of_them() {
    let declared = j(r#"{"and":[{"a":{"match":{"value":"x"}}}]}"#);
    let one = resolve("Toy", 0, Some(&declared), |c| Ok(toy(c))).unwrap();
    assert_eq!(one.into_inner(), Some("@a:{x}".to_string()));
    let none = resolve("Toy", 0, None, |c| Ok(toy(c))).unwrap();
    assert_eq!(none.into_inner(), None);
}
