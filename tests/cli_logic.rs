use streamsql::schema::{ColumnType, Field, Relation, SqlType};
use streamsql::cli::{generate_rows, bench_rates, pipeline_run_args, BenchColumn, CargoCmd, InputCheck, OutputCheck, TestResult, bench_columns, count_results, create_output_path, first_payload, is_ready_line, judge_test_case, test_port, unescape_newlines};

#[test]
fn generated_paths() {
    assert_eq!(create_output_path("project.sql"), "build/pipeline/main.rs");
    assert_eq!(create_output_path("src/project.sql"), "build/pipeline/src/main.rs");
    assert_eq!(create_output_path("/abs/p.sql"), "/abs/main.rs");
    assert_eq!(CargoCmd::Check.as_str(), "check");
    assert_eq!(CargoCmd::Build.as_str(), "build");
}

#[test]
fn readiness_and_ports() {
    assert!(is_ready_line("INFO Pipeline initialization complete. listening"));
    assert!(!is_ready_line("Pipeline initialization"));
    assert_eq!(test_port(3), 19993);
}

#[test]
fn egress_payloads() {
    assert_eq!(unescape_newlines("a,b\\nc,d\\n"), "a,b\nc,d\n");
    let recs = vec![None, Some(String::new()), Some(String::from("x\\n"))];
    assert_eq!(first_payload(&recs), Some(String::from("x\\n")));
    assert_eq!(first_payload(&vec![None]), None);
}

fn input(rel: &str, fixture: bool, accepted: bool) -> InputCheck {
    InputCheck { relation: String::from(rel), fixture, accepted }
}

fn output(rel: &str, expected: Option<&str>, actual: &str) -> OutputCheck {
    OutputCheck { relation: String::from(rel), expected: expected.map(String::from), actual: String::from(actual) }
}

#[test]
fn missing_output_fixture_is_success() {
    let t = String::from("case1");
    let r = judge_test_case(&t, &vec![input("t", true, true)], &vec![output("v", None, "1,2\n")]);
    assert_eq!(r, TestResult::Success(t));
}

#[test]
fn test_case_failures() {
    let t = String::from("case2");
    let r = judge_test_case(&t, &vec![input("t1", false, false), input("t2", true, false)], &vec![]);
    assert_eq!(r, TestResult::InputError(t.clone(), String::from("t2")));
    let r = judge_test_case(&t, &vec![input("t1", true, true)], &vec![output("v", Some("1\n"), "2\n")]);
    assert_eq!(r, TestResult::OutputError(t.clone(), String::from("v"), String::from("2\n"), String::from("1\n")));
    let r = judge_test_case(&t, &vec![], &vec![output("v", Some("1\n"), "1\n")]);
    assert_eq!(r, TestResult::Success(t.clone()));
    let results = vec![TestResult::Success(t.clone()), TestResult::InputError(t.clone(), t.clone())];
    assert_eq!(count_results(&results), (1, 1));
}

fn relation_of(types: &[SqlType]) -> Relation {
    let fields = types
        .iter()
        .enumerate()
        .map(|(i, t)| Field {
            name: format!("c{i}"),
            case_sensitive: false,
            columntype: ColumnType { typ: *t, nullable: false, precision: None, scale: None, component: None, fields: None },
        })
        .collect();
    Relation::new("t", false, fields)
}

#[test]
fn bench_rows_follow_column_rules() {
    let rel = relation_of(&[SqlType::BigInt, SqlType::Varchar, SqlType::Decimal]);
    let mut rows = String::new();
    let count = generate_rows(&mut rows, &rel, 1000, || String::from("0.25")).unwrap();
    assert!(count >= 1);
    assert!(rows.len() > 1000);
    let lines: Vec<&str> = rows.lines().collect();
    assert_eq!(lines.len(), count);
    for line in lines {
        let parts: Vec<&str> = line.split(',').collect();
        assert_eq!(parts.len(), 3);
        assert!(parts[0].parse::<u64>().unwrap() < 1024);
        assert_eq!(parts[1].chars().count(), 16);
        assert!(parts[1].chars().all(|c| c.is_ascii_alphanumeric()));
        assert_eq!(parts[2], "0.25");
    }
    assert_eq!(bench_rates(100, 2000, 10), (10, 200));
}

#[test]
fn bench_rows_reject_other_types() {
    let rel = relation_of(&[SqlType::BigInt, SqlType::Date]);
    let mut rows = String::from("kept");
    assert_eq!(generate_rows(&mut rows, &rel, 10, || String::from("0.5")), Err(1));
    assert_eq!(rows, "kept");
}

#[test]
fn bench_rejects_other_types() {
    let tags = vec![String::from("BIGINT"), String::from("DATE")];
    assert_eq!(bench_columns(&tags), Err(1));
}

#[test]
fn run_arguments() {
    let args = pipeline_run_args(&String::from("config.json"), 9999, false);
    assert_eq!(args, vec!["run", "--manifest-path", "build/pipeline/Cargo.toml", "--", "--config-file", "config.json", "--default-port", "9999"]);
    let args = pipeline_run_args(&String::from("c.yaml"), 7, true);
    assert_eq!(args[3], "--release");
    assert_eq!(args.len(), 9);
}
