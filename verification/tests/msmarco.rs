use std::collections::HashMap;
use vector_db_benchmark::json::{Json, JsonNumber};
use vector_db_benchmark::json_parse::parse_json;
use vector_db_benchmark::msmarco::crosscheck::{
    cap_violations, check_coverage, coverage_floor, ensure_finite, in_prefix_hits, offsets_to_track,
    verify_head_against_shipped, HeadCheck, InPrefixHits, ScoreGap,
};
use vector_db_benchmark::msmarco::npy::{
    decode_f16_block, npy_f32_header, parse_f16_npy_header, widen, DeferredNpyF32Writer,
};
use vector_db_benchmark::msmarco::records::{
    field_type, payload_field_names, payload_from_passage, test_row,
};
use vector_db_benchmark::msmarco::sampling::{
    bucket_of_checksum, crc32_bucket, docid_in_front, docid_in_record, extract_docid, jsonl_url, keeps, npy_url,
    queries_url, shard_stem, variant, variants, BucketHistogram, Variant, CRC32_BUCKETS, DIM,
    HF_REVISION, TOTAL_PASSAGES,
};
use vector_db_benchmark::msmarco::topk::TopK;

fn j(text: &str) -> Json {
    parse_json(text).unwrap()
}

#[test]
fn variants_are_registered_under_their_own_names_and_dirs() {
    let all: Vec<Variant> = variants();
    assert_eq!(all.len(), 3);
    assert!(all.iter().all(|v| v.threshold > 0));
    for v in &all {
        assert_eq!(variant(v.dataset_name).map(|f| f.limit), Some(v.limit));
    }
    assert!(variant("msmarco-sparse-1M").is_none());
    let names: std::collections::HashSet<_> = all.iter().map(|v| v.dataset_name).collect();
    let dirs: std::collections::HashSet<_> = all.iter().map(|v| v.dir).collect();
    let limits: std::collections::HashSet<_> = all.iter().map(|v| v.limit).collect();
    assert_eq!(names.len(), all.len());
    assert_eq!(dirs.len(), all.len());
    assert_eq!(limits.len(), all.len());
    let mut thresholds: Vec<u32> = all.iter().map(|v| v.threshold).collect();
    let sorted = {
        let mut t = thresholds.clone();
        t.sort_unstable();
        t
    };
    assert_eq!(
        thresholds, sorted,
        "crc32 variants must be listed ascending"
    );
    thresholds.dedup();
    assert_eq!(
        thresholds.len(),
        all.len(),
        "thresholds must be distinct"
    );
    let mut sampled: Vec<(u32, u64)> =
        all.iter().map(|v| (v.threshold, v.limit)).collect();
    sampled.sort_unstable();
    for w in sampled.windows(2) {
        assert!(w[0].1 < w[1].1, "{:?} then {:?}", w[0], w[1]);
    }
    assert!(all.iter().all(|v| v.limit <= TOTAL_PASSAGES));
}

#[test]
fn crc32_bucket_matches_python_zlib() {
    for (docid, full, bucket) in [
        ("hello", 907_060_870u32, 60_870u32),
        ("msmarco_v2.1_doc_00_0#0_0", 3_951_548_037, 548_037),
        (
            "msmarco_v2.1_doc_09_894803720#6_1517223658",
            1_891_268_743,
            268_743,
        ),
        ("", 0, 0),
    ] {
        assert_eq!(
            full % CRC32_BUCKETS,
            bucket,
            "test vector is self-consistent"
        );
        assert_eq!(crc32_bucket(docid), bucket, "docid {docid:?}");
    }
}

#[test]
fn docid_extraction_handles_the_real_line_and_falls_back_safely() {
    let real = r#"{"docid": "msmarco_v2.1_doc_00_0#0_0", "url": "http://x/", "title": "T"}"#;
    assert_eq!(
        extract_docid(real).as_deref(),
        Some("msmarco_v2.1_doc_00_0#0_0")
    );
    assert_eq!(
        extract_docid(r#"{"docid":"abc","url":"u"}"#).as_deref(),
        Some("abc")
    );
    assert_eq!(
        extract_docid(r#"{"url": "u", "docid": "later"}"#).as_deref(),
        Some("later")
    );
    assert!(extract_docid(r#"{"url": "u"}"#).is_none());
    assert!(extract_docid("not json").is_none());
    assert_eq!(docid_in_record(&j(r#"{"docid": "d"}"#)).as_deref(), Some("d"));
    assert!(docid_in_record(&j(r#"{"docid": 3}"#)).is_none());
    assert!(docid_in_record(&j("[]")).is_none());
}

#[test]
fn histogram_sizes_a_sample_for_any_threshold() {
    let mut h = BucketHistogram::new();
    let n = 60_000u32;
    for i in 0..n {
        h.add(&format!("msmarco_v2.1_doc_{:02}_{}#0_0", i % 60, i));
    }
    assert_eq!(h.total(), n as u64);
    assert_eq!(h.count_below(0), 0);
    assert_eq!(h.count_below(CRC32_BUCKETS), n as u64);
    let (a, b) = (h.count_below(1000), h.count_below(2000));
    assert!(a <= b);
    for target in [100u64, 1_000, 30_000] {
        let (th, got) = h.threshold_for(target);
        let err = target.abs_diff(got);
        if th > 0 {
            assert!(
                target.abs_diff(h.count_below(th - 1)) >= err,
                "target {target}"
            );
        }
        if th < CRC32_BUCKETS {
            assert!(
                target.abs_diff(h.count_below(th + 1)) >= err,
                "target {target}"
            );
        }
    }
    assert_eq!(h.threshold_for(n as u64).1, n as u64);
}

#[test]
fn merged_shard_histograms_equal_a_single_scan() {
    let docids: Vec<String> = (0..5_000)
        .map(|i| format!("msmarco_v2.1_doc_{:02}_{}#0_0", i % 60, i))
        .collect();

    let mut sequential = BucketHistogram::new();
    for d in &docids {
        sequential.add(d);
    }
    let mut merged = BucketHistogram::new();
    let mut parts: Vec<BucketHistogram> = Vec::new();
    for chunk in docids.chunks(700) {
        let mut h = BucketHistogram::new();
        for d in chunk {
            h.add(d);
        }
        parts.push(h);
    }
    parts.reverse();
    for h in &parts {
        merged.merge(h);
    }

    assert_eq!(merged.total(), sequential.total());
    for t in [0u32, 1, 137, 9_999, CRC32_BUCKETS] {
        assert_eq!(
            merged.count_below(t),
            sequential.count_below(t),
            "threshold {t}"
        );
    }
}

#[test]
fn crc32_thresholds_nest() {
    for i in 0..5_000u32 {
        let docid = format!("msmarco_v2.1_doc_00_{i}#0_0");
        if keeps(&docid, 881) {
            assert!(
                keeps(&docid, 8_810),
                "{docid} is in the small sample but not the large one"
            );
        }
    }
}

#[test]
fn crc32_buckets_are_uniform_enough_to_size_a_sample() {
    let n = 200_000u32;
    let hits = (0..n)
        .filter(|i| {
            let docid = format!("msmarco_v2.1_doc_{:02}_{}#0_0", i % 60, i);
            crc32_bucket(&docid) < CRC32_BUCKETS / 100 // nominal 1%
        })
        .count();
    let rate = hits as f64 / n as f64;
    assert!(
        (0.008..0.012).contains(&rate),
        "1% threshold selected {rate:.4} — not uniform enough to size a sample"
    );
}

#[test]
fn shard_urls_are_zero_padded_and_share_a_stem() {
    assert_eq!(shard_stem(0), "msmarco_v2.1_doc_segmented_00");
    assert_eq!(shard_stem(59), "msmarco_v2.1_doc_segmented_59");
    assert!(npy_url(7).ends_with("passages_npy/msmarco_v2.1_doc_segmented_07.npy"));
    assert!(jsonl_url(7).ends_with("passages_jsonl/msmarco_v2.1_doc_segmented_07.json.gz"));
    assert!(queries_url().ends_with("queries_jsonl/queries.jsonl.gz"));
}

#[test]
fn every_upstream_url_is_pinned_to_a_commit_not_a_branch() {
    assert_eq!(HF_REVISION.len(), 40, "expected a full 40-char commit sha");
    assert!(HF_REVISION.chars().all(|c| c.is_ascii_hexdigit()));
    for url in [npy_url(0), npy_url(59), jsonl_url(0), queries_url()] {
        assert!(
            url.contains(&format!("/resolve/{HF_REVISION}/")),
            "not pinned: {url}"
        );
        assert!(!url.contains("/resolve/main/"), "still on a branch: {url}");
    }
}


/// The vectors in hand, and the scores that go with them.
struct Ranking {
    top: TopK,
    queries: Vec<f32>,
    dim: usize,
}

fn dot(a: &[f32], b: &[f32]) -> f32 {
    a.iter().zip(b).map(|(x, y)| x * y).sum()
}

impl Ranking {
    fn new(queries: Vec<f32>, dim: usize, k: usize) -> Result<Self, String> {
        Ok(Ranking { top: TopK::new(queries.len(), dim, k)?, queries, dim })
    }

    fn n_queries(&self) -> usize {
        self.top.n_queries()
    }

    fn add_block(&mut self, block: &[f32], first_id: i64) -> Result<(), String> {
        let scores: Vec<Vec<u32>> = self
            .queries
            .chunks(self.dim)
            .map(|q| block.chunks_exact(self.dim).map(|p| dot(q, p).to_bits()).collect())
            .collect();
        self.top.add_block(block.len(), first_id, &scores)
    }

    fn finish(self) -> Vec<Vec<(f32, i64)>> {
        self.top
            .finish()
            .into_iter()
            .map(|row| row.into_iter().map(|(s, i)| (f32::from_bits(s), i)).collect())
            .collect()
    }
}

fn flat(rows: &[[f32; 2]]) -> Vec<f32> {
    rows.iter().flat_map(|r| r.iter().copied()).collect()
}

#[test]
fn out_of_order_blocks_are_rejected_in_release_builds_too() {
    let mut acc = Ranking::new(flat(&[[1.0, 0.0]]), 2, 3).unwrap();
    acc.add_block(&flat(&[[1.0, 0.0], [0.9, 0.1]]), 10).unwrap();
    acc.add_block(&flat(&[[0.8, 0.2]]), 12).unwrap();
    let e = acc.add_block(&flat(&[[0.7, 0.3]]), 5).unwrap_err();
    assert!(e.contains("ascending id order"), "{e}");
}

fn real_f16_header() -> Vec<u8> {
    let mut h = Vec::new();
    h.extend_from_slice(b"\x93NUMPY\x01\x00\x76\x00");
    let dict = "{'descr': '<f2', 'fortran_order': False, 'shape': (1760180, 1024), }";
    h.extend_from_slice(dict.as_bytes());
    while h.len() < 127 {
        h.push(b' ');
    }
    h.push(b'\n');
    h
}

#[test]
fn parses_the_real_float16_shard_header() {
    let h = parse_f16_npy_header(&real_f16_header()).unwrap();
    assert_eq!(h.rows, 1_760_180);
    assert_eq!(h.cols, DIM as u64);
    assert_eq!(h.data_start, 128);
    assert_eq!(h.row_offset(0), 128);
    assert_eq!(h.row_offset(2), 128 + 2 * 1024 * 2);
}

#[test]
fn rejects_dtypes_and_orders_that_would_garble_the_payload() {
    let swap = |from: &str, to: &str| {
        let h = real_f16_header();
        let (from, to) = (from.as_bytes(), to.as_bytes());
        let at = h
            .windows(from.len())
            .position(|w| w == from)
            .expect("substring present in the header");
        let mut out = h[..at].to_vec();
        out.extend_from_slice(to);
        out.extend_from_slice(&h[at + from.len()..]);
        while out.len() < h.len() {
            out.insert(out.len() - 1, b' ');
        }
        while out.len() > h.len() {
            out.remove(out.len() - 2);
        }
        out
    };
    let e = parse_f16_npy_header(&swap("'<f2'", "'<f4'")).unwrap_err();
    assert!(e.contains("float16"), "{e}");
    let e = parse_f16_npy_header(&swap("'<f2'", "'>f2'")).unwrap_err();
    assert!(e.contains("float16"), "{e}");
    let e = parse_f16_npy_header(&swap("False", "True")).unwrap_err();
    assert!(e.contains("Fortran"), "{e}");
    let e = parse_f16_npy_header(&swap("(1760180, 1024)", "(1760180,)")).unwrap_err();
    assert!(e.contains("2-D"), "{e}");

    assert!(parse_f16_npy_header(b"not npy at all")
        .unwrap_err()
        .contains("magic"));
    assert!(parse_f16_npy_header(b"\x93NUM")
        .unwrap_err()
        .contains("10 bytes"));
}

#[test]
fn decodes_float16_and_refuses_a_block_cut_mid_value() {
    let vals = [1.0f32, -2.5, 0.0, 65504.0];
    let mut bytes = Vec::new();
    for v in vals {
        bytes.extend_from_slice(&half::f16::from_f32(v).to_le_bytes());
    }
    let read: Vec<f32> =
        decode_f16_block(&bytes).unwrap().into_iter().map(f32::from_bits).collect();
    assert_eq!(read, vals.to_vec());

    let e = decode_f16_block(&bytes[..bytes.len() - 1]).unwrap_err();
    assert!(e.contains("odd byte length"), "{e}");
}

#[test]
fn payloads_keep_the_order_of_the_registered_fields() {
    let rec = j(r#"{"url": "u", "segment": "s", "docid": "d", "end_char": 3, "title": null}"#);
    let p = payload_from_passage(&rec).unwrap();
    let names: Vec<&str> = p.as_object().unwrap().iter().map(|m| m.0.as_str()).collect();
    assert_eq!(names, ["docid", "url", "title", "segment", "end_char"]);
    assert_eq!(p.get("title"), Some(&Json::Null));
}

#[test]
fn a_header_that_is_no_text_is_refused() {
    let mut h = real_f16_header();
    h[20] = 0xff;
    let e = parse_f16_npy_header(&h).unwrap_err();
    let why = std::str::from_utf8(&h[10..]).unwrap_err().to_string();
    assert!(e.contains(&why), "{e}");
}

#[test]
fn nothing_is_kept_at_depth_zero() {
    let mut top = TopK::new(4, 2, 0).unwrap_or_else(|e| panic!("{e}"));
    assert_eq!(top.add_block(0, 0, &[vec![], vec![]]), Ok(()));
    assert_eq!(top.finish(), vec![vec![], vec![]]);
}

#[test]
fn widening_keeps_every_half_float() {
    for h in 0..=u16::MAX {
        let theirs = half::f16::from_bits(h).to_f32();
        let ours = f32::from_bits(widen(h));
        if theirs.is_nan() {
            assert!(ours.is_nan(), "{h:#06x}");
        } else {
            assert_eq!(ours.to_bits(), theirs.to_bits(), "{h:#06x}");
        }
    }
}

#[test]
fn npy_header_is_64_byte_aligned_and_declares_the_row_count() {
    for (rows, cols) in [(1u64, 1usize), (100_000, 1024), (10_000_000, 1024)] {
        let h = npy_f32_header(rows, cols);
        assert_eq!(
            h.len() % 64,
            0,
            "header not 64-byte aligned for {rows}x{cols}"
        );
        assert_eq!(&h[0..6], b"\x93NUMPY");
        assert_eq!(h[6], 1);
        let declared = u16::from_le_bytes([h[8], h[9]]) as usize;
        assert_eq!(10 + declared, h.len());
        assert_eq!(*h.last().unwrap(), b'\n');
        let dict = std::str::from_utf8(&h[10..]).unwrap();
        assert!(dict.contains(&format!("({}, {})", rows, cols)), "{dict}");
        assert!(dict.contains("'<f4'"));
    }
}

#[test]
fn deferred_npy_round_trips_and_pins_the_header_size() {
    let rows: Vec<Vec<f32>> = (0..7)
        .map(|i| (0..3).map(|j| i as f32 * 2.0 + j as f32).collect())
        .collect();

    let (mut w, mut file) = DeferredNpyF32Writer::create(3);
    for r in &rows {
        let bits: Vec<u32> = r.iter().map(|x| x.to_bits()).collect();
        file.extend(w.write_row(&bits).unwrap());
    }
    assert_eq!(w.rows_written(), 7);
    let (header, written) = w.finish().unwrap();
    assert_eq!(written, 7);
    file[..header.len()].copy_from_slice(&header);

    // The patched file reads back: a header that declares seven rows, and the rows behind it.
    let start = 10 + u16::from_le_bytes([file[8], file[9]]) as usize;
    assert!(std::str::from_utf8(&file[10..start]).unwrap().contains("(7, 3)"));
    let read: Vec<f32> = file[start..]
        .chunks(4)
        .map(|c| f32::from_le_bytes([c[0], c[1], c[2], c[3]]))
        .collect();
    assert_eq!(read, rows.concat());

    let reserved = npy_f32_header(1, DIM).len();
    for n in [0u64, 1, 99_999, 100_000, 1_000_000, 10_000_000, 113_520_750] {
        assert_eq!(
            npy_f32_header(n, DIM).len(),
            reserved,
            "row count {n} renders a different header size"
        );
    }
    let (mut w, _) = DeferredNpyF32Writer::create(3);
    assert!(w.write_row(&[1.0f32.to_bits(), 2.0f32.to_bits()]).is_err());
    assert_eq!(w.rows_written(), 0);
}

#[test]
fn topk_ranks_by_cosine_across_block_boundaries() {
    let queries = flat(&[[1.0, 0.0], [0.0, 1.0]]);
    let mut acc = Ranking::new(queries, 2, 2).unwrap();
    assert_eq!(acc.n_queries(), 2);
    acc.add_block(&flat(&[[0.9, 0.1], [0.1, 0.9]]), 0).unwrap();
    acc.add_block(&flat(&[[1.0, 0.0], [0.0, 1.0]]), 2).unwrap();

    let out = acc.finish();
    assert_eq!(
        out[0].iter().map(|(_, i)| *i).collect::<Vec<_>>(),
        vec![2, 0]
    );
    assert_eq!(
        out[1].iter().map(|(_, i)| *i).collect::<Vec<_>>(),
        vec![3, 1]
    );
    assert!((out[0][0].0 - 1.0).abs() < 1e-6);
}

#[test]
fn topk_breaks_ties_deterministically_on_the_id() {
    let queries = flat(&[[1.0, 0.0]]);
    let mut acc = Ranking::new(queries, 2, 3).unwrap();
    acc.add_block(&flat(&[[1.0, 0.0], [1.0, 0.0]]), 10).unwrap();
    acc.add_block(&flat(&[[1.0, 0.0], [1.0, 0.0]]), 12).unwrap();
    let out = acc.finish();
    assert_eq!(
        out[0].iter().map(|(_, i)| *i).collect::<Vec<_>>(),
        vec![10, 11, 12]
    );
}

#[test]
fn topk_rejects_ragged_query_and_block_matrices() {
    assert!(Ranking::new(vec![1.0, 2.0, 3.0], 2, 5).is_err());
    assert!(Ranking::new(vec![1.0], 0, 5).is_err());
    let mut acc = Ranking::new(flat(&[[1.0, 0.0]]), 2, 5).unwrap();
    let e = acc.add_block(&[1.0, 2.0, 3.0], 0).unwrap_err();
    assert!(e.contains("not a multiple of dim"), "{e}");
}

#[test]
fn payload_keeps_only_the_registered_fields_and_needs_a_docid() {
    let rec = j(r#"{
        "docid": "msmarco_v2.1_doc_00_0#0_0",
        "url": "http://example.com/",
        "title": "T",
        "headings": "H",
        "segment": "body text",
        "start_char": 0,
        "end_char": 1278,
        "extra_field_we_do_not_store": 42
    }"#);
    let p = payload_from_passage(&rec).unwrap();
    assert_eq!(p.as_object().unwrap().len(), payload_field_names().len());
    assert!(p.get("extra_field_we_do_not_store").is_none());
    assert_eq!(p.get("end_char"), Some(&j("1278")));
    assert!(p.get("start_char").unwrap().as_i64().is_some());

    let e = payload_from_passage(&j(r#"{"url": "u"}"#)).unwrap_err();
    assert!(e.contains("docid"), "{e}");
    assert!(payload_from_passage(&j(r#""not an object""#)).is_err());
}

#[test]
fn payload_fields_declare_a_schema_type_each() {
    let names = payload_field_names();
    for (i, name) in names.iter().enumerate() {
        let ty = field_type(i);
        assert!(
            ["keyword", "text", "int", "float", "bool", "datetime"].contains(&ty),
            "{name} declares unknown schema type {ty}"
        );
    }
    assert!(names.iter().any(|n| *n == "docid"));
}

#[test]
fn test_row_carries_no_conditions_key() {
    let float = |x: f32| j(&serde_json::Value::from(x as f64).to_string());
    let row = test_row(
        &vec![float(0.1), float(0.2)],
        "787021",
        "what is produced by muscle",
        Some(2021),
        &[(float(0.9), 7), (float(0.8), 3)],
    );
    assert_eq!(row.get("closest_ids"), Some(&j("[7, 3]")));
    assert_eq!(row.get("query"), Some(&Json::Array(vec![float(0.1), float(0.2)])));
    assert_eq!(row.get("query_id"), Some(&j(r#""787021""#)));
    assert!(row.get("conditions").is_none());
}

#[test]
fn in_prefix_hits_keeps_shipped_order_and_drops_out_of_range_offsets() {
    let offsets = vec![50, 5_000_000, 7, 900];
    let ids: Vec<String> = ["a", "b", "c", "d"].iter().map(|s| s.to_string()).collect();
    let cos: Vec<u32> = [0.9f32, 0.8, 0.7, 0.6].iter().map(|x| x.to_bits()).collect();

    let h = in_prefix_hits(&offsets, &ids, &cos, 1000).unwrap();
    assert_eq!(h.hits.iter().map(|(o, _, _)| *o).collect::<Vec<_>>(), vec![50, 7, 900]);
    assert_eq!(h.hits[0].1, "a");

    assert!(in_prefix_hits(&offsets, &ids[..2], &cos, 1000).is_err());
}

#[test]
fn coverage_floor_admits_the_real_variants_and_rejects_a_collapse() {
    let (min_q, min_p) = coverage_floor(100_000);
    assert!(
        min_q <= 562,
        "query floor {min_q} would fail the real 100K build"
    );
    assert!(
        min_p <= 2134,
        "position floor {min_p} would fail the real 100K build"
    );
    check_coverage(100_000, 562, 2134).unwrap();
    let e = check_coverage(100_000, 562, 3).unwrap_err();
    assert!(e.contains("below the floor"), "{e}");
    assert!(check_coverage(100_000, 4, 2134).is_err());
    let (_, p_1m) = coverage_floor(1_000_000);
    let (_, p_10m) = coverage_floor(10_000_000);
    assert!(p_1m > min_p && p_10m > p_1m, "{min_p} {p_1m} {p_10m}");
    assert!(check_coverage(10_000_000, 1677, 2134).is_err());
    assert_eq!(coverage_floor(1).1, 100);
    assert_eq!(coverage_floor(0).1, 100);
}

fn finite(block: &[f32], first_id: i64, dim: usize) -> Result<(), String> {
    let bits: Vec<u32> = block.iter().map(|x| x.to_bits()).collect();
    ensure_finite(&bits, first_id, dim)
}

#[test]
fn non_finite_embeddings_are_rejected_with_the_offending_passage() {
    let mut block = vec![0.5f32; 8];
    assert!(finite(&block, 100, 4).is_ok());

    block[5] = f32::NAN;
    let e = finite(&block, 100, 4).unwrap_err();
    assert!(e.contains("passage 101"), "{e}");
    assert!(e.contains("component 1"), "{e}");

    block[5] = f32::INFINITY;
    assert!(finite(&block, 100, 4).is_err());
}

#[test]
fn a_nan_would_corrupt_the_ranking_if_it_reached_topk() {
    let queries = flat(&[[1.0, 0.0]]);
    let mut acc = Ranking::new(queries, 2, 2).unwrap();
    acc.add_block(&flat(&[[1.0, 0.0], [f32::NAN, 0.0]]), 0)
        .unwrap();
    let out = acc.finish();
    assert!(out[0].iter().any(|(s, _)| s.is_nan()));
}

#[test]
fn cap_violations_flag_only_the_engines_whose_limit_applies() {
    let m = |pairs: &[(&str, usize)]| -> Vec<(String, usize)> {
        pairs.iter().map(|(k, v)| (k.to_string(), *v)).collect()
    };
    let ok = m(&[
        ("docid", 41),
        ("url", 190),
        ("title", 588),
        ("headings", 25_840),
        ("segment", 28_581),
    ]);
    assert!(cap_violations(&ok).is_empty(), "{:?}", cap_violations(&ok));
    let big_text = m(&[("segment", 70_000)]);
    let v = cap_violations(&big_text);
    assert_eq!(v.len(), 1, "{v:?}");
    assert!(v[0].contains("Milvus"), "{}", v[0]);
    let big_kw = m(&[("url", 40_000)]);
    let v = cap_violations(&big_kw);
    assert_eq!(v.len(), 1, "{v:?}");
    assert!(v[0].contains("keyword term"), "{}", v[0]);
    assert!(cap_violations(&[]).is_empty());
}

fn docids(pairs: &[(i64, &str)]) -> HashMap<i64, String> {
    pairs.iter().map(|(i, s)| (*i, s.to_string())).collect()
}

fn hits(rows: &[(i64, &str, f32)]) -> InPrefixHits {
    InPrefixHits { hits: rows.iter().map(|(o, p, c)| (*o, p.to_string(), c.to_bits())).collect() }
}

/// The head check on scores as numbers.
fn check_head(
    ranked: &[(f32, i64)],
    hits: &InPrefixHits,
    docid_at: &HashMap<i64, String>,
    tol: f32,
) -> Result<HeadCheck, String> {
    let bits: Vec<(u32, i64)> = ranked.iter().map(|(s, i)| (s.to_bits(), *i)).collect();
    let gaps: Vec<ScoreGap> = ranked
        .iter()
        .zip(&hits.hits)
        .map(|((ours, _), (_, _, shipped))| {
            let shipped = f32::from_bits(*shipped);
            let delta = (ours - shipped).abs();
            ScoreGap {
                delta: delta.to_bits(),
                ours_shown: format!("{ours:.6}"),
                shipped_shown: format!("{shipped:.6}"),
                delta_shown: format!("{delta:.6}"),
            }
        })
        .collect();
    verify_head_against_shipped(&bits, hits, &gaps, docid_at, tol.to_bits(), &format!("{tol:.6}"))
}

fn refusal(checked: Result<HeadCheck, String>) -> String {
    match checked {
        Err(e) => e,
        Ok(_) => panic!("the head must be refused"),
    }
}

#[test]
fn head_check_passes_when_the_head_matches_the_shipped_hits() {
    let ranked = vec![(0.9f32, 50), (0.7, 7), (0.6, 900), (0.55, 42)];
    let shipped = hits(&[(50, "a", 0.9), (7, "c", 0.7), (900, "d", 0.6)]);
    let map = docids(&[(50, "a"), (7, "c"), (900, "d")]);
    let c = check_head(&ranked, &shipped, &map, 1e-3).unwrap();
    assert_eq!(c.compared, 3);
    assert_eq!(c.tie_swaps, 0);
    assert!(f32::from_bits(c.max_score_delta) < 1e-6);
}

#[test]
fn head_check_rejects_a_genuinely_wrong_ranking() {
    let ranked = vec![(0.7f32, 7), (0.9, 50)];
    let shipped = hits(&[(50, "a", 0.9), (7, "c", 0.7)]);
    let map = docids(&[(50, "a"), (7, "c")]);
    let e = refusal(check_head(&ranked, &shipped, &map, 1e-3));
    assert!(e.contains("wrong ranking"), "{e}");
    assert_eq!(
        e,
        "rank 0: brute force put id 7 (cosine 0.700000) where the shipped global top-1k has id 50 \
         (cosine 0.900000); the gap of 0.200000 exceeds the 0.001000 tolerance, so this is a wrong \
         ranking, not a tie"
    );
}

#[test]
fn head_check_tolerates_only_real_ties() {
    let shipped = hits(&[(50, "a", 0.90000), (7, "c", 0.90001)]);
    let map = docids(&[(50, "a"), (7, "c")]);

    let tied = vec![(0.90001f32, 7), (0.90000, 50)];
    let c = check_head(&tied, &shipped, &map, 1e-3).unwrap();
    assert_eq!(c.tie_swaps, 2);

    let apart = hits(&[(50, "a", 0.9), (7, "c", 0.2)]);
    let e = refusal(check_head(&tied, &apart, &map, 1e-3));
    assert!(e.contains("wrong ranking"), "{e}");
}

#[test]
fn head_check_catches_npy_jsonl_misalignment() {
    let ranked = vec![(0.9f32, 50)];
    let shipped = hits(&[(50, "expected-docid", 0.9)]);
    let shifted = docids(&[(50, "the-next-passages-docid")]);
    let e = refusal(check_head(&ranked, &shipped, &shifted, 1e-3));
    assert!(e.contains("misaligned"), "{e}");
}

#[test]
fn head_check_catches_a_scored_vector_that_is_not_the_shipped_one() {
    let ranked = vec![(0.42f32, 50)];
    let shipped = hits(&[(50, "a", 0.9)]);
    let e = refusal(check_head(&ranked, &shipped, &docids(&[(50, "a")]), 1e-3));
    assert!(e.contains("not the one HF scored"), "{e}");
}

#[test]
fn head_check_reports_zero_comparisons_when_no_shipped_hit_is_in_prefix() {
    let ranked = vec![(0.5f32, 1), (0.4, 2)];
    let c = check_head(&ranked, &hits(&[]), &HashMap::new(), 1e-3).unwrap();
    assert_eq!(c.compared, 0);
}

#[test]
fn only_numbers_of_passages_are_followed() {
    assert_eq!(offsets_to_track(&[5, -1, 0, i64::MAX]), vec![5, 0, i64::MAX as u64]);
    assert!(offsets_to_track(&[]).is_empty());
}

#[test]
fn a_checksum_falls_into_the_bucket_of_its_last_six_digits() {
    assert_eq!(bucket_of_checksum(907_060_870), 60_870);
    assert_eq!(bucket_of_checksum(u32::MAX), 967_295);
    assert_eq!(bucket_of_checksum(999_999), 999_999);
}

#[test]
fn a_leading_docid_is_read_without_a_parse() {
    assert_eq!(docid_in_front(r#"{"docid": "a b", not json"#).as_deref(), Some("a b"));
    assert_eq!(docid_in_front(r#"{"url": "u", "docid": "later"}"#), None);
    // A text with an escape in it is left to the parse.
    assert_eq!(docid_in_front(r#"{"docid": "a\"b"}"#), None);
    assert_eq!(extract_docid(r#"{"docid": "a\"b"}"#).as_deref(), Some("a\"b"));
    assert_eq!(extract_docid(r#"{"docid": "\u0041\\"}"#).as_deref(), Some("A\\"));
    assert_eq!(extract_docid(r#"{"docid": "a", "url": "\""}"#).as_deref(), Some("a"));
    assert_eq!(extract_docid(r#"{"url": "u", "docid": "\u0041"}"#).as_deref(), Some("A"));
    assert_eq!(extract_docid(r#"{"url": "u", "docid": 7}"#), None);
}

#[test]
fn the_record_of_a_histogram_names_the_closest_threshold() {
    let mut h = BucketHistogram::new();
    for id in ["hello", "msmarco_v2.1_doc_00_0#0_0", ""] {
        h.add(id);
    }
    // Their buckets are 60870, 548037 and 0.
    assert_eq!(h.threshold_for(1), (1, 1));
    assert_eq!(h.threshold_for(2), (60_871, 2));
    assert_eq!(
        h.to_json(&[2]).get("total_passages"),
        Some(&Json::Number(JsonNumber::PosInt(3)))
    );
}
