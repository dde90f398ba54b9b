use vector_db_benchmark::experiment::agenda::{
    out_of_time_note, plan_run, Agenda, Configured, Turn,
};
use vector_db_benchmark::experiment::plan::{EngineEntry, IndexClaim, RunOptions};

fn options() -> RunOptions {
    RunOptions {
        host: "localhost".to_string(),
        engines_file: None,
        engines: vec!["*".to_string()],
        datasets: vec!["*".to_string()],
        allow_partial_configs: false,
        allow_partial_corpus: false,
        dump_raw_latencies: false,
        exit_on_error: true,
        fail_on_dropped_queries: false,
        keep_data: false,
        reset_between_configs: false,
        skip_if_exists: false,
        skip_search: false,
        skip_upload: false,
        skip_vector_index: false,
        repetitions: 1,
        queries: -1,
        parallels: vec![],
        ef_runtime: vec![],
        update_search_ratio: vec![],
        target_qps: 0.0f64.to_bits(),
        search_duration: 0.0f64.to_bits(),
        warmup_seconds: 0.0f64.to_bits(),
        max_lateness_ms: 0.0f64.to_bits(),
    }
}

fn entry(name: &str, engine: &str, wanted: bool) -> EngineEntry {
    EngineEntry {
        name: name.to_string(),
        engine: Some(engine.to_string()),
        config_name: name.to_string(),
        wanted,
    }
}

fn claim(name: &str, engine: &str, index: &str) -> IndexClaim {
    IndexClaim {
        engine: Some(engine.to_string()),
        config_name: name.to_string(),
        index: index.to_string(),
        exact: false,
    }
}

fn refused(a: &RunOptions, wanted: &[bool], entries: &[EngineEntry], claims: &[IndexClaim]) -> String {
    match plan_run(a, wanted, entries, claims) {
        Err(e) => e,
        Ok(_) => panic!("the run must be refused"),
    }
}

#[test]
fn a_run_takes_what_is_asked_for() {
    let entries = [
        entry("a", "redis", true),
        entry("b", "nosuch", true),
        entry("c", "redis", true),
        entry("d", "qdrant", false),
        entry("e", "qdrant", true),
    ];
    let claims = [
        claim("a", "redis", "idx-a"),
        claim("b", "nosuch", ""),
        claim("c", "redis", "idx-c"),
        claim("d", "qdrant", ""),
        claim("e", "qdrant", ""),
    ];
    let a = options();
    let p = plan_run(&a, &[false, true, true], &entries, &claims).unwrap_or_else(|e| panic!("{e}"));
    assert_eq!(p.datasets, vec![1, 2]);
    assert_eq!(p.engines, vec![0, 2, 4]);

    let mut flat = options();
    flat.skip_vector_index = true;
    let p = plan_run(&flat, &[true], &entries, &claims).unwrap_or_else(|e| panic!("{e}"));
    assert_eq!(p.engines, vec![0, 4]);

    assert_eq!(refused(&a, &[false], &entries, &claims), "No datasets match pattern: '*'");
    assert!(refused(&a, &[true], &entries[1..2], &claims[1..2])
        .starts_with("No engines match pattern: '*'. Supported: [\"redis\", \"vectorsets\""));
    let mut timed = options();
    timed.search_duration = 10.0f64.to_bits();
    assert_eq!(
        refused(&timed, &[true], &entries, &claims),
        "duration-bounded search currently supports Redis and Vertex only; unsupported: e"
    );
    let same = [claim("a", "redis", "idx"), claim("c", "redis", "idx")];
    assert!(refused(&a, &[true], &[entry("a", "redis", true), entry("c", "redis", true)], &same)
        .starts_with("Configs 'a' and 'c' derive the same index namespace 'idx'"));
}

fn configured(name: &str, engine: &str) -> Configured {
    Configured { name: name.to_string(), engine: Some(engine.to_string()) }
}

fn begin(engines: Vec<Configured>, a: &RunOptions) -> Agenda {
    Agenda::begin(engines, vec!["x".to_string(), "y".to_string()], a)
}

#[test]
fn every_configuration_is_run_on_every_dataset() {
    let mut agenda =
        begin(vec![configured("a", "redis"), configured("b", "qdrant")], &options());
    let mut said: Vec<String> = Vec::new();
    let mut places: Vec<(usize, usize, bool)> = Vec::new();
    loop {
        match agenda.next(false) {
            Turn::Run { engine, dataset, name, is_last, headline } => {
                places.push((engine, dataset, is_last));
                said.push(headline);
                assert!(agenda.settle(&name, Ok(())).is_none());
            }
            Turn::Finished => break,
            _ => panic!("nothing is left out"),
        }
    }
    assert_eq!(places, vec![(0, 0, false), (0, 1, false), (1, 0, true), (1, 1, true)]);
    assert_eq!(said[0], "Running experiment (1/4): a - x");
    assert_eq!(said[3], "Running experiment (4/4): b - y");
}

#[test]
fn a_failure_ends_a_run_where_that_is_asked_for() {
    let mut agenda = begin(vec![configured("a", "redis")], &options());
    assert_eq!(
        agenda.settle("a", Err("boom".to_string())),
        Some(("[config=a dataset=x] boom".to_string(), true))
    );

    let mut lenient = options();
    lenient.exit_on_error = false;
    let mut agenda = begin(vec![configured("a", "redis")], &lenient);
    assert_eq!(
        agenda.settle("a", Err("boom".to_string())),
        Some(("[config=a dataset=x] boom".to_string(), false))
    );
    match agenda.next(false) {
        Turn::Run { dataset, headline, .. } => {
            assert_eq!(dataset, 1);
            assert_eq!(headline, "Running experiment (2/2): a - y");
        }
        _ => panic!("the run goes on"),
    }
}

#[test]
fn a_run_stops_when_its_time_is_up() {
    let mut agenda =
        begin(vec![configured("a", "redis"), configured("b", "qdrant")], &options());
    assert!(agenda.settle("a", Ok(())).is_none());
    match agenda.next(true) {
        Turn::OutOfTime(left) => assert_eq!(left, 3),
        _ => panic!("the time is up"),
    }
    assert_eq!(
        out_of_time_note("60", "61", 3),
        "Reached --timeout budget (60s, elapsed 61s); stopping with 3 experiment(s) not started."
    );
}

#[test]
fn engines_that_need_vectors_are_left_out_without_them() {
    let mut flat = options();
    flat.skip_vector_index = true;
    let mut agenda = begin(vec![configured("q", "qdrant"), configured("r", "redis")], &flat);
    match agenda.next(true) {
        Turn::LeaveOut(m) => assert_eq!(
            m,
            "WARNING: --skip-vector-index not implemented for engine 'qdrant', skipping"
        ),
        _ => panic!("the engine is left out"),
    }
    match agenda.next(false) {
        Turn::Run { engine, name, is_last, headline, .. } => {
            assert_eq!((engine, name.as_str(), is_last), (1, "redis-no-vector", true));
            assert_eq!(headline, "Running experiment (1/4): redis-no-vector - x");
        }
        _ => panic!("the other engine is run"),
    }
}
