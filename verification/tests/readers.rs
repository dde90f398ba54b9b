use vector_db_benchmark::json::{Json, JsonNumber};
use vector_db_benchmark::json_parse::parse_json;
use vector_db_benchmark::readers::compound_reader::{
    check_payloads, is_blank, read_compound_data, read_compound_queries, read_payload_lines,
    read_payloads_jsonl, read_query_row, sequential_ids,
};
use vector_db_benchmark::readers::hdf5_reader::{hdf5_train_row_count, read_hdf5_vectors};
use vector_db_benchmark::readers::metadata::{
    parse_metadata_from_json, MetadataItem, MetadataValue,
};
use vector_db_benchmark::readers::multivector_reader::{
    mvec_row_count, read_multivector_matrix, write_multivector_matrix, MultiVector,
};
use vector_db_benchmark::readers::sparse_reader::{
    csr_row_count, read_gt_neighbours, read_sparse_matrix, write_gt_neighbours, write_sparse_matrix,
    SparseVector,
};

fn sparse(indices: Vec<u32>, values: Vec<f32>) -> SparseVector {
    SparseVector { indices, values: values.into_iter().map(|x| x.to_bits()).collect() }
}

fn same_rows(a: &[SparseVector], b: &[SparseVector]) -> bool {
    a.len() == b.len()
        && a.iter().zip(b).all(|(x, y)| x.indices == y.indices && x.values == y.values)
}

#[test]
fn round_trips_csr_sparse_matrix() {
    let rows = vec![
        sparse(vec![0, 5, 9], vec![1.0, 2.5, -3.0]),
        sparse(vec![], vec![]),
        sparse(vec![3], vec![0.75]),
    ];
    let data = write_sparse_matrix(&rows);
    let read = read_sparse_matrix("x.csr", &data).unwrap();
    assert!(same_rows(&read, &rows));
}

#[test]
fn csr_row_count_decodes_a_literal_little_endian_fixture() {
    let bytes: &[u8] = &[
        0x96, 0x00, 0x00, 0x00, 0x00, 0x00, 0x00, 0x00,
        0x2c, 0x01, 0x00, 0x00, 0x00, 0x00, 0x00, 0x00,
        0xdc, 0x05, 0x00, 0x00, 0x00, 0x00, 0x00, 0x00,
    ];
    assert_eq!(csr_row_count("x.csr", bytes).unwrap(), 150, "n_row must decode little-endian");
}

#[test]
fn csr_row_count_agrees_with_a_full_parse_on_well_formed_input() {
    for n in [0usize, 1, 150] {
        let rows: Vec<SparseVector> =
            (0..n).map(|i| sparse(vec![i as u32 % 5], vec![0.5])).collect();
        let data = write_sparse_matrix(&rows);
        assert_eq!(csr_row_count("x.csr", &data).unwrap(), n as u64, "n = {n}");
        assert_eq!(read_sparse_matrix("x.csr", &data).unwrap().len(), n, "n = {n}");
    }
}

#[test]
fn csr_row_count_rejects_a_truncated_or_negative_header() {
    let err = csr_row_count("x.csr", &[0u8; 23]).unwrap_err();
    assert!(err.contains("not a readable CSR file"), "{err}");

    let mut b = Vec::new();
    b.extend_from_slice(&(-5i64).to_le_bytes());
    b.extend_from_slice(&1i64.to_le_bytes());
    b.extend_from_slice(&0i64.to_le_bytes());
    let err = csr_row_count("x.csr", &b).unwrap_err();
    assert!(err.contains("negative"), "{err}");
}

fn i64s(values: &[i64]) -> Vec<u8> {
    values.iter().flat_map(|v| v.to_le_bytes()).collect()
}

#[test]
fn rejects_index_pointer_count_overflow() {
    assert!(read_sparse_matrix("x.csr", &i64s(&[i64::MAX, 1, 0])).is_err());
}

#[test]
fn rejects_nnz_byte_overflow() {
    let nnz: i64 = 1 << 62;
    assert!(read_sparse_matrix("x.csr", &i64s(&[0, 1, nnz, nnz])).is_err());
}

#[test]
fn rejects_non_monotonic_index_pointer() {
    let mut b = i64s(&[1, 1, 1, 5, 1]);
    b.extend_from_slice(&0i32.to_le_bytes());
    b.extend_from_slice(&0f32.to_le_bytes());
    assert!(read_sparse_matrix("x.csr", &b).is_err());
}

#[test]
fn rejects_out_of_bounds_index_pointer() {
    let mut b = i64s(&[2, 1, 1, 0, 9, 1]);
    b.extend_from_slice(&0i32.to_le_bytes());
    b.extend_from_slice(&0f32.to_le_bytes());
    assert!(read_sparse_matrix("x.csr", &b).is_err());
}

#[test]
fn rejects_absurd_allocation_from_small_file() {
    let nnz: i64 = 1 << 40;
    assert!(read_sparse_matrix("x.csr", &i64s(&[0, 1, nnz, nnz])).is_err());
}

#[test]
fn gt_decodes_a_literal_little_endian_fixture() {
    let bytes: &[u8] = &[
        0x02, 0x00, 0x00, 0x00,
        0x03, 0x00, 0x00, 0x00,
        0x01, 0x00, 0x00, 0x00,
        0x00, 0x01, 0x00, 0x00,
        0x00, 0x00, 0x01, 0x00,
        0x00, 0x00, 0x00, 0x00,
        0x00, 0x00, 0x00, 0x01,
        0xff, 0xff, 0xff, 0x7f,
        0x00, 0x00, 0x00, 0x00,
        0x00, 0x00, 0x00, 0x00,
        0x00, 0x00, 0x00, 0x00,
        0x00, 0x00, 0x00, 0x00,
        0x00, 0x00, 0x00, 0x00,
        0x00, 0x00, 0x00, 0x00,
    ];
    assert_eq!(
        read_gt_neighbours("x.gt", bytes).unwrap(),
        vec![vec![1i64, 256, 65536], vec![0, 16_777_216, 2_147_483_647]],
        "results.gt ids must be parsed as little-endian i32, ids block first"
    );
}

#[test]
fn round_trips_gt_neighbours() {
    let rows = vec![vec![7i64, 3, 11], vec![0, 1, 2]];
    let data = write_gt_neighbours(&rows).unwrap();
    assert_eq!(read_gt_neighbours("x.gt", &data).unwrap(), rows);
}

fn u32s(values: &[u32]) -> Vec<u8> {
    values.iter().flat_map(|v| v.to_le_bytes()).collect()
}

#[test]
fn gt_empty_file_reads_as_no_queries() {
    assert_eq!(
        read_gt_neighbours("x.gt", &u32s(&[0, 0])).unwrap(),
        Vec::<Vec<i64>>::new()
    );
}

#[test]
fn gt_rejects_zero_neighbours_for_nonempty_query_set() {
    let err = read_gt_neighbours("x.gt", &u32s(&[1000, 0])).unwrap_err();
    assert!(err.contains("0 neighbours"), "expected a 0-neighbours rejection, got: {}", err);
}

#[test]
fn gt_cannot_detect_a_transposed_header_alone() {
    let rows = vec![vec![0i64, 1, 2, 3], vec![4, 5, 6, 7]];
    let read = read_gt_neighbours("x.gt", &write_gt_neighbours(&rows).unwrap()).unwrap();
    assert_eq!(read, rows);
    assert_eq!(read.len(), 2, "header shape is trusted at this layer");
}

#[test]
fn gt_rejects_truncated_file() {
    let err = read_gt_neighbours("x.gt", &u32s(&[2, 10, 1])).unwrap_err();
    assert!(err.contains("but the file is"), "unexpected error: {}", err);
}

#[test]
fn gt_rejects_size_overflow() {
    assert!(read_gt_neighbours("x.gt", &u32s(&[u32::MAX, u32::MAX])).is_err());
}

#[test]
fn gt_writer_rejects_ids_outside_i32() {
    for bad in [i64::from(i32::MAX) + 1, i64::from(i32::MIN) - 1, i64::MAX] {
        let err = write_gt_neighbours(&[vec![1i64, bad]]).unwrap_err();
        assert!(err.contains("int32"), "id {bad}: {err}");
    }
    assert!(write_gt_neighbours(&[vec![-1i64, i64::from(i32::MAX)]]).is_ok());
}

#[test]
fn gt_writer_rejects_zero_width_rows() {
    let err = write_gt_neighbours(&[vec![], vec![]]).unwrap_err();
    assert!(err.contains("0 neighbours"), "got: {err}");
    assert!(write_gt_neighbours(&[]).is_ok());
}

#[test]
fn gt_writer_rejects_ragged_rows() {
    assert!(write_gt_neighbours(&[vec![1i64, 2], vec![3]]).is_err());
}

// ── several vectors to a row ────────────────────────────────────────────

fn multi(vectors: Vec<Vec<f32>>) -> MultiVector {
    MultiVector {
        vectors: vectors
            .into_iter()
            .map(|v| v.into_iter().map(|x| x.to_bits()).collect())
            .collect(),
    }
}

fn same_multi(a: &[MultiVector], b: &[MultiVector]) -> bool {
    a.len() == b.len() && a.iter().zip(b).all(|(x, y)| x.vectors == y.vectors)
}

#[test]
fn mvec_decodes_a_literal_little_endian_fixture() {
    let bytes: &[u8] = &[
        0x02, 0x00, 0x00, 0x00,
        0x01, 0x00, 0x00, 0x00,
        0x01, 0x00, 0x00, 0x00,
        0x02, 0x00, 0x00, 0x00,
        0x00, 0x00, 0x20, 0x41,
        0x00, 0x00, 0xA0, 0x41,
        0x00, 0x00, 0xF0, 0x41,
    ];
    assert_eq!(mvec_row_count("x.mvec", bytes).unwrap(), 2, "num_rows must decode little-endian");
    let rows = read_multivector_matrix("x.mvec", bytes).unwrap();
    assert!(same_multi(
        &rows,
        &[multi(vec![vec![10.0]]), multi(vec![vec![20.0], vec![30.0]])]
    ));
}

#[test]
fn round_trips_multivector_matrix() {
    let rows = vec![
        multi(vec![vec![1.0, 2.0], vec![3.0, 4.0], vec![5.0, 6.0]]),
        multi(vec![]),
        multi(vec![vec![-1.0, 0.5]]),
    ];
    let data = write_multivector_matrix(&rows).unwrap();
    assert_eq!(mvec_row_count("x.mvec", &data).unwrap(), rows.len() as u64);
    assert!(same_multi(&read_multivector_matrix("x.mvec", &data).unwrap(), &rows));
}

#[test]
fn mvec_row_count_agrees_with_a_full_parse() {
    for n in [0usize, 1, 150] {
        let rows: Vec<MultiVector> = (0..n).map(|i| multi(vec![vec![i as f32]])).collect();
        let data = write_multivector_matrix(&rows).unwrap();
        assert_eq!(mvec_row_count("x.mvec", &data).unwrap(), n as u64, "n = {n}");
    }
}

#[test]
fn mvec_row_count_rejects_a_truncated_header() {
    assert!(mvec_row_count("x.mvec", &[0u8; 7]).is_err());
}

#[test]
fn rejects_truncated_header() {
    let err = match read_multivector_matrix("x.mvec", &[0u8; 7]) {
        Err(e) => e,
        Ok(_) => panic!("must be refused"),
    };
    assert!(err.contains("not a readable multivector file"), "{err}");
}

#[test]
fn rejects_a_declared_row_count_the_file_cannot_hold() {
    let err = match read_multivector_matrix("x.mvec", &u32s(&[u32::MAX, 16])) {
        Err(e) => e,
        Ok(_) => panic!("must be refused"),
    };
    assert!(err.contains("token-count bytes but file is only"), "{err}");
}

#[test]
fn rejects_value_block_byte_size_overflow() {
    let err = match read_multivector_matrix("x.mvec", &u32s(&[1, u32::MAX, u32::MAX])) {
        Err(e) => e,
        Ok(_) => panic!("must be refused"),
    };
    assert!(err.contains("multivector value size overflow"), "{err}");
}

#[test]
fn rejects_truncated_value_block() {
    assert!(
        read_multivector_matrix("x.mvec", &u32s(&[1, 2, 3, 1.0f32.to_bits()])).is_err()
    );
}

#[test]
fn writer_rejects_ragged_token_dim() {
    assert!(write_multivector_matrix(&[multi(vec![vec![1.0, 2.0], vec![3.0]])]).is_err());
}

#[test]
fn empty_dataset_round_trips() {
    let data = write_multivector_matrix(&[]).unwrap();
    assert!(read_multivector_matrix("x.mvec", &data).unwrap().is_empty());
}

// ── rows of a compound dataset ──────────────────────────────────────────

fn j(text: &str) -> Json {
    parse_json(text).unwrap()
}

/// The lines of a file.
fn lines(file: &str) -> Vec<String> {
    file.lines().map(str::to_string).collect()
}

fn floats(items: &[Json]) -> Vec<f32> {
    items
        .iter()
        .map(|x| match x {
            Json::Number(JsonNumber::Float(text)) => text.parse::<f64>().unwrap() as f32,
            Json::Number(JsonNumber::PosInt(n)) => *n as f32,
            Json::Number(JsonNumber::NegInt(n)) => *n as f32,
            other => panic!("not a number: {other:?}"),
        })
        .collect()
}

#[test]
fn test_compound_queries_basic() {
    let (queries, neighbors, _conditions) = read_compound_queries(&lines(
        r#"{"query": [1.0, 2.0, 3.0], "closest_ids": [10, 20], "closest_scores": [0.9, 0.8]}
{"query": [4.0, 5.0, 6.0], "closest_ids": [30, 40], "closest_scores": [0.7, 0.6]}
"#,
    ))
    .unwrap();
    assert_eq!(queries.len(), 2);
    assert_eq!(neighbors.len(), 2);
    assert_eq!(floats(&queries[0]), vec![1.0f32, 2.0, 3.0]);
    assert_eq!(floats(&queries[1]), vec![4.0f32, 5.0, 6.0]);
    assert_eq!(neighbors[0], vec![10i64, 20]);
    assert_eq!(neighbors[1], vec![30i64, 40]);
}

#[test]
fn test_compound_queries_with_conditions() {
    let (queries, neighbors, conditions) = read_compound_queries(&lines(
        r#"{"query": [1.0, 0.0], "conditions": {"and": [{"color": {"match": {"value": "red"}}}]}, "closest_ids": [5]}"#,
    ))
    .unwrap();
    assert_eq!(queries.len(), 1);
    assert_eq!(floats(&queries[0]), vec![1.0f32, 0.0]);
    assert_eq!(neighbors[0], vec![5i64]);
    assert_eq!(
        conditions.declared_count(),
        1,
        "the row declares a filter, so it must survive the guarded reader"
    );
}

#[test]
fn test_compound_queries_missing_closest_ids() {
    let (queries, neighbors, _conditions) =
        read_compound_queries(&lines(r#"{"query": [1.0, 2.0]}"#)).unwrap();
    assert_eq!(queries.len(), 1);
    assert!(neighbors[0].is_empty());
}

#[test]
fn test_compound_queries_skips_empty_lines() {
    let (queries, neighbors, _conditions) = read_compound_queries(&lines(
        "{\"query\": [1.0], \"closest_ids\": [0]}\n\n{\"query\": [2.0], \"closest_ids\": [1]}\n",
    ))
    .unwrap();
    assert_eq!(queries.len(), 2);
    assert_eq!(neighbors.len(), 2);
}

#[test]
fn null_and_empty_conditions_are_distinct_values() {
    let null = read_query_row(&j(r#"{"query": [1.0], "conditions": null}"#)).unwrap();
    let empty = read_query_row(&j(r#"{"query": [1.0], "conditions": {}}"#)).unwrap();
    let absent = read_query_row(&j(r#"{"query": [1.0]}"#)).unwrap();
    assert_eq!(null.conditions, Some(Json::Null));
    assert_eq!(empty.conditions, Some(Json::Object(vec![])));
    assert_eq!(absent.conditions, None);

    // All three mean that no filter is declared.
    let (_, _, guarded) = read_compound_queries(&lines(
        "{\"query\": [1.0], \"conditions\": null}\n{\"query\": [1.0], \"conditions\": {}}\n{\"query\": [1.0]}",
    ))
    .unwrap();
    assert_eq!(guarded.declared_count(), 0);
}

#[test]
fn a_row_without_a_query_is_refused() {
    for row in [r#"{"closest_ids": [1]}"#, r#"{"query": 3}"#, "[1.0]"] {
        let e = match read_compound_queries(&lines(row)) {
            Err(e) => e,
            Ok(_) => panic!("{row} must be refused"),
        };
        assert_eq!(e, "Missing 'query' field in tests.jsonl");
    }
}

#[test]
fn values_that_are_no_numbers_are_left_out_of_a_row() {
    let row =
        read_query_row(&j(r#"{"query": [1.5, "x", 2], "closest_ids": [1, "a", 2.5, 3]}"#)).unwrap();
    assert_eq!(floats(&row.query), vec![1.5f32, 2.0]);
    assert_eq!(row.neighbors, vec![1i64, 3]);
}

#[test]
fn payloads_must_be_as_many_as_the_vectors() {
    assert_eq!(check_payloads(None, 5), Ok(()));
    assert_eq!(check_payloads(Some(5), 5), Ok(()));
    assert_eq!(
        check_payloads(Some(4), 5),
        Err("Metadata count (4) doesn't match vector count (5)".to_string())
    );
    assert_eq!(sequential_ids(3), vec![0i64, 1, 2]);
    assert!(is_blank(" \t "));
    assert!(!is_blank(" x"));
}

#[test]
fn the_rows_of_a_matrix_are_its_first_extent() {
    assert_eq!(hdf5_train_row_count("a.hdf5", &[7, 25]), Ok(7));
    assert!(hdf5_train_row_count("a.hdf5", &[]).is_err());
    let (ids, vectors) = read_hdf5_vectors(&[1, 2, 3, 4, 5, 6], 2, 3);
    assert_eq!(ids, vec![0i64, 1]);
    assert_eq!(vectors, vec![vec![1u32, 2, 3], vec![4, 5, 6]]);
}

#[test]
fn what_is_written_is_read_back() {
    // Every bit pattern, not-a-number and both zeros among them.
    let rows = vec![
        SparseVector { indices: vec![u32::MAX, 0, 7], values: vec![0x7fc0_0001, 0x8000_0000, 0] },
        SparseVector { indices: vec![], values: vec![] },
    ];
    assert_eq!(read_sparse_matrix("x.csr", &write_sparse_matrix(&rows)).unwrap(), rows);
}

// ── metadata ────────────────────────────────────────────────────────────

fn metadata(text: &str) -> Option<MetadataItem> {
    parse_metadata_from_json(&j(text))
}

#[test]
fn test_metadata_parse_string_field() {
    let meta = metadata(r#"{"name": "test_item"}"#).unwrap();
    assert_eq!(meta.fields.len(), 1);
    assert_eq!(meta.fields[0].0, "name");
    match &meta.fields[0].1 {
        MetadataValue::Text(s) => assert_eq!(s, "test_item"),
        _ => panic!("Expected a text"),
    }
}

#[test]
fn test_metadata_parse_number_field() {
    let meta = metadata(r#"{"price": 42}"#).unwrap();
    assert_eq!(meta.fields.len(), 1);
    match &meta.fields[0].1 {
        MetadataValue::Int(n) => assert_eq!(*n, 42),
        _ => panic!("Expected Int variant for integer"),
    }
}

#[test]
fn test_metadata_parse_float_field() {
    let meta = metadata(r#"{"price": 3.5}"#).unwrap();
    assert_eq!(meta.fields.len(), 1);
    match &meta.fields[0].1 {
        MetadataValue::Float { value, shown } => {
            assert_eq!(value, &j("3.5"));
            assert_eq!(shown.parse::<f64>().unwrap(), 3.5);
        }
        _ => panic!("Expected Float variant for non-integer"),
    }
}

#[test]
fn test_metadata_parse_bool_field() {
    let meta = metadata(r#"{"active": true}"#).unwrap();
    assert_eq!(meta.fields.len(), 1);
    match &meta.fields[0].1 {
        MetadataValue::Text(s) => assert_eq!(s, "true"),
        _ => panic!("Expected a text for bool"),
    }
}

#[test]
fn test_metadata_parse_labels_field() {
    let meta = metadata(r#"{"labels": ["red", "blue", "green"]}"#).unwrap();
    assert_eq!(meta.fields.len(), 1);
    match &meta.fields[0].1 {
        MetadataValue::Labels(labels) => assert_eq!(labels, &vec!["red", "blue", "green"]),
        _ => panic!("Expected Labels variant"),
    }
}

#[test]
fn test_metadata_parse_geo_field() {
    let meta = metadata(r#"{"location": {"lon": -73.9857, "lat": 40.7484}}"#).unwrap();
    assert_eq!(meta.fields.len(), 1);
    match &meta.fields[0].1 {
        MetadataValue::Geo { lon, lat } => {
            let number = |v: &Json| match v {
                Json::Number(JsonNumber::Float(t)) => t.parse::<f64>().unwrap(),
                other => panic!("not a number: {other:?}"),
            };
            assert!((number(lon) - (-73.9857)).abs() < 1e-4);
            assert!((number(lat) - 40.7484).abs() < 1e-4);
        }
        _ => panic!("Expected Geo variant"),
    }
}

#[test]
fn test_metadata_parse_null_field_ignored() {
    let meta = metadata(r#"{"name": "test", "empty": null}"#).unwrap();
    assert_eq!(meta.fields.len(), 1);
    assert_eq!(meta.fields[0].0, "name");
}

#[test]
fn test_metadata_parse_empty_object() {
    assert_eq!(metadata("{}").unwrap().fields.len(), 0);
}

#[test]
fn test_metadata_parse_non_object_returns_none() {
    assert!(metadata("[1, 2, 3]").is_none());
    assert!(metadata(r#""a string""#).is_none());
    assert!(metadata("42").is_none());
}

#[test]
fn test_metadata_parse_multiple_field_types() {
    let meta = metadata(
        r#"{
            "title": "Widget",
            "price": 9.99,
            "labels": ["sale", "new"],
            "location": {"lon": 1.0, "lat": 2.0},
            "active": false,
            "notes": null
        }"#,
    )
    .unwrap();
    assert_eq!(meta.fields.len(), 5);
    let field_names: Vec<&str> = meta.fields.iter().map(|(k, _)| k.as_str()).collect();
    assert!(field_names.contains(&"title"));
    assert!(field_names.contains(&"price"));
    assert!(field_names.contains(&"labels"));
    assert!(field_names.contains(&"location"));
    assert!(field_names.contains(&"active"));
}

#[test]
fn test_compound_reader_payloads_parsing() {
    let metadata = read_payloads_jsonl(&lines(
        r#"{"name": "item1", "price": 10}
{"name": "item2", "labels": ["a", "b"]}
{}
"#,
    ))
    .unwrap();
    assert_eq!(metadata.len(), 3);
    assert!(metadata[0].is_some());
    assert!(metadata[1].is_some());
    assert!(metadata[2].is_some());
    assert_eq!(metadata[0].as_ref().unwrap().fields.len(), 2);
    let m1 = metadata[1].as_ref().unwrap();
    let labels_field = m1.fields.iter().find(|(k, _)| k == "labels").unwrap();
    match &labels_field.1 {
        MetadataValue::Labels(l) => assert_eq!(l, &vec!["a", "b"]),
        _ => panic!("Expected Labels"),
    }
    assert_eq!(metadata[2].as_ref().unwrap().fields.len(), 0);
}

#[test]
fn test_compound_reader_payloads_empty_lines() {
    let metadata =
        read_payloads_jsonl(&lines("{\"name\": \"item1\"}\n\n{\"name\": \"item3\"}\n")).unwrap();
    assert_eq!(metadata.len(), 3);
    assert!(metadata[0].is_some());
    assert!(metadata[1].is_none());
    assert!(metadata[2].is_some());
}

#[test]
fn payloads_keep_the_places_of_their_lines() {
    let records = read_payload_lines(&lines("{\"a\": 1}\n \t\n[2]\n")).unwrap();
    assert_eq!(records, vec![Some(j(r#"{"a": 1}"#)), None, Some(j("[2]"))]);
    // A record that is no object has no metadata.
    let payloads = read_payloads_jsonl(&lines("{\"a\": 1}\n[2]\n")).unwrap();
    assert!(payloads[0].is_some());
    assert!(payloads[1].is_none());
    assert!(read_payload_lines(&[]).unwrap().is_empty());
}

#[test]
fn a_payload_that_is_no_json_fails_the_file() {
    let file = lines("{\"a\": 1}\n\n{\"b\" 2}\nnope\n");
    let why = parse_json("{\"b\" 2}").unwrap_err();
    let expected = format!("Failed to parse JSON: {why}");
    assert_eq!(read_payload_lines(&file).unwrap_err(), expected);
    assert_eq!(read_payloads_jsonl(&file).unwrap_err(), expected);
    assert_eq!(why, "expected `:` at line 1 column 6");
}

fn query_error(file: &str) -> String {
    match read_compound_queries(&lines(file)) {
        Err(e) => e,
        Ok(_) => panic!("{file} must be refused"),
    }
}

#[test]
fn the_first_line_that_is_no_query_is_named() {
    assert_eq!(
        query_error("{\"query\": [1.0]}\n{\"query\""),
        "Failed to parse tests.jsonl: EOF while parsing an object at line 1 column 8"
    );
    // A row without a query is met before a line further down that is no JSON, and the other way round.
    assert_eq!(query_error("{}\nnope\n"), "Missing 'query' field in tests.jsonl");
    assert!(query_error("nope\n{}\n").starts_with("Failed to parse tests.jsonl: "));
}

#[test]
fn numbers_beyond_the_integers_are_doubles() {
    let meta = metadata(r#"{"big": 18446744073709551615, "tiny": 1e-7, "whole": 2.0}"#).unwrap();
    let shown: Vec<(&str, &str)> = meta
        .fields
        .iter()
        .map(|(k, v)| match v {
            MetadataValue::Float { shown, .. } => (k.as_str(), shown.as_str()),
            _ => panic!("Expected Float variant"),
        })
        .collect();
    assert_eq!(
        shown,
        vec![("big", "18446744073709552000"), ("tiny", "0.0000001"), ("whole", "2")]
    );
}

#[test]
fn a_dataset_is_put_together() {
    let vectors = || vec![vec![1u32], vec![2]];
    let (ids, read, metadata) = read_compound_data(vectors(), None).unwrap();
    assert_eq!((ids, read), (vec![0i64, 1], vectors()));
    assert!(metadata.len() == 2 && metadata.iter().all(Option::is_none));

    let file = lines("{\"a\": 1}\n\n");
    let (ids, read, metadata) = read_compound_data(vectors(), Some(&file)).unwrap();
    assert_eq!((ids, read), (vec![0i64, 1], vectors()));
    assert!(metadata[0].is_some() && metadata[1].is_none());

    assert_eq!(
        read_compound_data(vectors(), Some(&file[..1])).unwrap_err(),
        "Metadata count (1) doesn't match vector count (2)"
    );
    // What is no JSON is met before payloads are counted.
    let e = read_compound_data(vectors(), Some(&lines("nope"))).unwrap_err();
    assert!(e.starts_with("Failed to parse JSON: "), "{e}");
}
