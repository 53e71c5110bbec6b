use pipeline_stages::errors::RunError;
use pipeline_stages::parse::parse_pipeline;
use pipeline_stages::ser::render_results;
use pipeline_stages::value::Val;

fn s(x: &str) -> String {
    x.to_string()
}

#[test]
fn parses_a_simple_pipeline() {
    let text = "[{\"$match\": {\"active\": true}}, {\"$group\": {\"_id\": \"$type\"}}]";
    let stages = parse_pipeline(text).unwrap();
    assert_eq!(stages.len(), 2);
    match &stages[0] {
        Val::Obj(fields) => {
            assert_eq!(fields.len(), 1);
            assert_eq!(fields[0].0, "$match");
        }
        _ => panic!("expected a stage object"),
    }
}

#[test]
fn parses_an_empty_pipeline() {
    let stages = parse_pipeline("  [ ]  ").unwrap();
    assert_eq!(stages.len(), 0);
}

#[test]
fn top_level_object_is_a_parse_error() {
    match parse_pipeline("{\"$match\": {\"active\": true}}") {
        Err(RunError::Parse(_)) => {}
        Err(_) => panic!("wrong error kind"),
        Ok(_) => panic!("expected a parse error"),
    }
}

#[test]
fn invalid_json_is_a_parse_error() {
    match parse_pipeline("[{\"$match\": ") {
        Err(RunError::Parse(_)) => {}
        _ => panic!("expected a parse error"),
    }
}

#[test]
fn scalar_stage_is_a_parse_error() {
    match parse_pipeline("[1, 2]") {
        Err(RunError::Parse(_)) => {}
        _ => panic!("expected a parse error"),
    }
}

#[test]
fn trailing_text_is_a_parse_error() {
    match parse_pipeline("[] []") {
        Err(RunError::Parse(_)) => {}
        _ => panic!("expected a parse error"),
    }
}

#[test]
fn string_escapes_are_decoded() {
    let stages = parse_pipeline("[{\"a\\u0041\\n\": \"\\\"\\\\\\u00e9\"}]").unwrap();
    match &stages[0] {
        Val::Obj(fields) => {
            assert_eq!(fields[0].0, "aA\n");
            match &fields[0].1 {
                Val::Str(v) => assert_eq!(v, "\"\\\u{e9}"),
                _ => panic!("expected a string"),
            }
        }
        _ => panic!("expected an object"),
    }
}

#[test]
fn surrogate_pair_escapes_are_combined() {
    let stages = parse_pipeline("[{\"e\": \"\\uD83D\\uDE00\"}]").unwrap();
    match &stages[0] {
        Val::Obj(fields) => match &fields[0].1 {
            Val::Str(v) => assert_eq!(v, "\u{1F600}"),
            _ => panic!("expected a string"),
        },
        _ => panic!("expected an object"),
    }
}

#[test]
fn lone_surrogate_escape_is_a_parse_error() {
    match parse_pipeline("[{\"e\": \"\\uD83D\"}]") {
        Err(RunError::Parse(_)) => {}
        _ => panic!("expected a parse error"),
    }
}

#[test]
fn number_tokens_keep_their_text() {
    let stages = parse_pipeline("[{\"a\": 1.5e3, \"b\": -0.25, \"c\": 10}]").unwrap();
    match &stages[0] {
        Val::Obj(fields) => {
            match &fields[0].1 {
                Val::Num(t) => assert_eq!(t, "1.5e3"),
                _ => panic!("expected a number"),
            }
            match &fields[1].1 {
                Val::Num(t) => assert_eq!(t, "-0.25"),
                _ => panic!("expected a number"),
            }
            match &fields[2].1 {
                Val::Num(t) => assert_eq!(t, "10"),
                _ => panic!("expected a number"),
            }
        }
        _ => panic!("expected an object"),
    }
}

#[test]
fn leading_zero_number_is_a_parse_error() {
    match parse_pipeline("[{\"a\": 01}]") {
        Err(RunError::Parse(_)) => {}
        _ => panic!("expected a parse error"),
    }
}

#[test]
fn empty_results_render_as_empty_array() {
    assert_eq!(render_results(vec![]), "[]");
}

#[test]
fn one_document_renders_pretty() {
    let doc = Val::Obj(vec![
        (s("a"), Val::Num(s("1"))),
        (s("b"), Val::Arr(vec![Val::Bool(true), Val::Null])),
    ]);
    let expected = "[\n  {\n    \"a\": 1,\n    \"b\": [\n      true,\n      null\n    ]\n  }\n]";
    assert_eq!(render_results(vec![doc]), expected);
}

#[test]
fn empty_containers_render_inline() {
    let doc = Val::Obj(vec![(s("a"), Val::Arr(vec![])), (s("b"), Val::Obj(vec![]))]);
    let expected = "[\n  {\n    \"a\": [],\n    \"b\": {}\n  }\n]";
    assert_eq!(render_results(vec![doc]), expected);
}

#[test]
fn strings_are_escaped_on_output() {
    let doc = Val::Obj(vec![(s("q"), Val::Str(s("a\"b\\c\nd\u{1}")))]);
    let expected = "[\n  {\n    \"q\": \"a\\\"b\\\\c\\nd\\u0001\"\n  }\n]";
    assert_eq!(render_results(vec![doc]), expected);
}

#[test]
fn parse_then_render_round_trip() {
    let stages = parse_pipeline("[{\"$match\": {\"active\": true}}]").unwrap();
    let expected = "[\n  {\n    \"$match\": {\n      \"active\": true\n    }\n  }\n]";
    assert_eq!(render_results(stages), expected);
}
