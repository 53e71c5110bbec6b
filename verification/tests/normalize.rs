use pipeline_stages::normalize::convert_bson_fields_to_json_fields;
use pipeline_stages::errors::RunError;
use pipeline_stages::ser::render_results;
use pipeline_stages::value::Val;

fn s(x: &str) -> String {
    x.to_string()
}

fn oid_hex() -> String {
    s("507f1f77bcf86cd799439011")
}

fn render_one(v: Val) -> String {
    render_results(vec![v])
}

#[test]
fn oid_wrapper_becomes_plain_string() {
    let doc = Val::Obj(vec![
        (s("_id"), Val::Obj(vec![(s("$oid"), Val::Str(oid_hex()))])),
        (s("name"), Val::Str(s("alice"))),
    ]);
    let out = convert_bson_fields_to_json_fields(doc).unwrap();
    match out {
        Val::Obj(fields) => {
            assert_eq!(fields.len(), 2);
            assert_eq!(fields[0].0, "_id");
            match &fields[0].1 {
                Val::Str(v) => assert_eq!(v, &oid_hex()),
                other => panic!("expected a plain string, got {:?}", render_one(other.duplicate())),
            }
            assert_eq!(fields[1].0, "name");
        }
        _ => panic!("expected an object"),
    }
}

#[test]
fn date_wrapper_unwraps_and_preserves_type() {
    let doc = Val::Obj(vec![
        (s("created"), Val::Obj(vec![(s("$date"), Val::Num(s("1700000000")))])),
        (s("seen"), Val::Obj(vec![(s("$date"), Val::Str(s("2020-01-01T00:00:00Z")))])),
    ]);
    let out = convert_bson_fields_to_json_fields(doc).unwrap();
    match out {
        Val::Obj(fields) => {
            match &fields[0].1 {
                Val::Num(t) => assert_eq!(t, "1700000000"),
                _ => panic!("number type was not preserved"),
            }
            match &fields[1].1 {
                Val::Str(t) => assert_eq!(t, "2020-01-01T00:00:00Z"),
                _ => panic!("string type was not preserved"),
            }
        }
        _ => panic!("expected an object"),
    }
}

#[test]
fn no_wrappers_is_identity() {
    let doc = Val::Obj(vec![
        (s("a"), Val::Num(s("1"))),
        (s("b"), Val::Arr(vec![Val::Bool(true), Val::Null])),
        (s("c"), Val::Obj(vec![(s("x"), Val::Str(s("y"))), (s("z"), Val::Null)])),
    ]);
    let before = render_one(doc.duplicate());
    let after = render_one(convert_bson_fields_to_json_fields(doc).unwrap());
    assert_eq!(before, after);
}

#[test]
fn oid_wrapper_with_non_string_inner_is_normalization_error() {
    let doc = Val::Obj(vec![(s("_id"), Val::Obj(vec![(s("$oid"), Val::Num(s("5")))]))]);
    match convert_bson_fields_to_json_fields(doc) {
        Err(RunError::Normalization(_)) => {}
        Err(_) => panic!("wrong error kind"),
        Ok(_) => panic!("expected an error"),
    }
}

#[test]
fn nested_wrappers_are_kept() {
    let doc = Val::Obj(vec![(
        s("outer"),
        Val::Obj(vec![
            (s("inner"), Val::Obj(vec![(s("$oid"), Val::Str(oid_hex()))])),
            (s("more"), Val::Null),
        ]),
    )]);
    let before = render_one(doc.duplicate());
    let after = render_one(convert_bson_fields_to_json_fields(doc).unwrap());
    assert_eq!(before, after);
}

#[test]
fn multi_key_object_is_not_a_wrapper() {
    let doc = Val::Obj(vec![(
        s("x"),
        Val::Obj(vec![(s("$oid"), Val::Str(oid_hex())), (s("y"), Val::Num(s("1")))]),
    )]);
    let before = render_one(doc.duplicate());
    let after = render_one(convert_bson_fields_to_json_fields(doc).unwrap());
    assert_eq!(before, after);
}

#[test]
fn normalization_is_idempotent_after_one_pass() {
    let doc = Val::Obj(vec![
        (s("_id"), Val::Obj(vec![(s("$oid"), Val::Str(oid_hex()))])),
        (s("at"), Val::Obj(vec![(s("$date"), Val::Num(s("7")))])),
    ]);
    let once = convert_bson_fields_to_json_fields(doc).unwrap();
    let copy = once.duplicate();
    let twice = convert_bson_fields_to_json_fields(once).unwrap();
    assert_eq!(render_one(copy), render_one(twice));
}

#[test]
fn non_object_document_is_unchanged() {
    let doc = Val::Num(s("42"));
    let out = convert_bson_fields_to_json_fields(doc).unwrap();
    match out {
        Val::Num(t) => assert_eq!(t, "42"),
        _ => panic!("expected the number back"),
    }
}
