use pipeline_stages::cli::Cli;
use pipeline_stages::errors::RunError;
use pipeline_stages::parse::parse_pipeline;
use pipeline_stages::runner::{output_file_name, Runner};
use pipeline_stages::ser::render_results;
use pipeline_stages::value::Val;

fn s(x: &str) -> String {
    x.to_string()
}

#[test]
fn file_names_follow_the_stage_index() {
    assert_eq!(output_file_name(1), "stage_1_result.json");
    assert_eq!(output_file_name(2), "stage_2_result.json");
    assert_eq!(output_file_name(12), "stage_12_result.json");
    assert_eq!(output_file_name(100), "stage_100_result.json");
}

#[test]
fn prefix_is_stages_plus_one_limit_stage() {
    let stages = parse_pipeline(
        "[{\"$match\": {\"active\": true}}, {\"$group\": {\"_id\": \"$type\"}}]",
    )
    .unwrap();
    let runner = Runner::new(stages, 5);
    let prefix = runner.next_prefix().unwrap();
    assert_eq!(prefix.len(), 2);
    match &prefix[1] {
        Val::Obj(fields) => {
            assert_eq!(fields.len(), 1);
            assert_eq!(fields[0].0, "$limit");
            match &fields[0].1 {
                Val::Num(t) => assert_eq!(t, "5"),
                _ => panic!("the cap is a number"),
            }
        }
        _ => panic!("the bounding stage is an object"),
    }
    match &prefix[0] {
        Val::Obj(fields) => assert_eq!(fields[0].0, "$match"),
        _ => panic!("the first stage was copied"),
    }
}

#[test]
fn original_pipeline_is_not_consumed_by_prefixes() {
    let stages = parse_pipeline("[{\"$match\": {}}, {\"$group\": {}}]").unwrap();
    let runner = Runner::new(stages, 3);
    let first = runner.next_prefix().unwrap();
    let again = runner.next_prefix().unwrap();
    assert_eq!(render_results(first), render_results(again));
    assert_eq!(runner.stages.len(), 2);
}

#[test]
fn two_stage_run_emits_two_files_in_order() {
    let stages = parse_pipeline(
        "[{\"$match\": {\"active\": true}}, {\"$group\": {\"_id\": \"$type\"}}]",
    )
    .unwrap();
    let mut runner = Runner::new(stages, 5);

    assert!(runner.next_prefix().is_some());
    let docs1 = vec![Val::Obj(vec![(s("active"), Val::Bool(true))])];
    let (name1, content1) = runner.record_results(docs1).unwrap();
    assert_eq!(name1, "stage_1_result.json");
    assert_eq!(content1, "[\n  {\n    \"active\": true\n  }\n]");

    assert!(runner.next_prefix().is_some());
    let docs2 = vec![Val::Obj(vec![(s("_id"), Val::Str(s("a"))), (s("count"), Val::Num(s("2")))])];
    let (name2, _content2) = runner.record_results(docs2).unwrap();
    assert_eq!(name2, "stage_2_result.json");

    assert!(runner.next_prefix().is_none());
}

#[test]
fn results_are_normalized_before_rendering() {
    let stages = parse_pipeline("[{\"$match\": {}}]").unwrap();
    let mut runner = Runner::new(stages, 10);
    let docs = vec![Val::Obj(vec![(
        s("_id"),
        Val::Obj(vec![(s("$oid"), Val::Str(s("507f1f77bcf86cd799439011")))]),
    )])];
    let (_, content) = runner.record_results(docs).unwrap();
    assert_eq!(content, "[\n  {\n    \"_id\": \"507f1f77bcf86cd799439011\"\n  }\n]");
}

#[test]
fn limit_zero_renders_the_empty_array() {
    let stages = parse_pipeline("[{\"$match\": {}}]").unwrap();
    let mut runner = Runner::new(stages, 0);
    let (_, content) = runner.record_results(vec![]).unwrap();
    assert_eq!(content, "[]");
}

#[test]
fn normalization_failure_stops_the_run() {
    let stages = parse_pipeline("[{\"$match\": {}}, {\"$group\": {}}]").unwrap();
    let mut runner = Runner::new(stages, 10);
    let bad = vec![Val::Obj(vec![(s("_id"), Val::Obj(vec![(s("$oid"), Val::Num(s("5")))]))])];
    match runner.record_results(bad) {
        Err(RunError::Normalization(_)) => {}
        _ => panic!("expected a normalization error"),
    }
    assert_eq!(runner.next, 0);
}

#[test]
fn source_rejection_leaves_earlier_files_only() {
    let stages = parse_pipeline("[{\"$match\": {}}, {\"$bad\": {}}]").unwrap();
    let mut runner = Runner::new(stages, 10);

    assert!(runner.next_prefix().is_some());
    let (name1, content1) = runner.record_results(vec![]).unwrap();
    assert_eq!(name1, "stage_1_result.json");
    assert_eq!(content1, "[]");

    assert!(runner.next_prefix().is_some());
    let rejection = RunError::Execution(s("the data source rejected the prefix"));
    match rejection {
        RunError::Execution(_) => {}
        _ => panic!("an execution error aborts the run"),
    }
    assert_eq!(runner.next, 1);
}

#[test]
fn duplicate_makes_an_equal_independent_copy() {
    let v = Val::Obj(vec![
        (s("a"), Val::Arr(vec![Val::Num(s("1")), Val::Str(s("x"))])),
        (s("b"), Val::Null),
    ]);
    let copy = v.duplicate();
    assert_eq!(render_results(vec![v]), render_results(vec![copy]));
}

#[test]
fn cli_holds_the_run_parameters() {
    let cli = Cli {
        url: s("mongodb://localhost:27017"),
        database: s("app"),
        collection: s("events"),
        pipeline: s("pipeline.json"),
        output_dir: s("./stage_logs"),
        limit: 10,
    };
    assert_eq!(cli.database, "app");
    assert_eq!(cli.limit, 10);
    assert_eq!(cli.output_dir, "./stage_logs");
}
