use vstd::prelude::*;
use crate::value::{Val, ValS, view_fields, lemma_view_fields};
use crate::errors::RunError;

verus! {

/// Key of the object-identifier wrapper produced by the data source driver.
pub open spec fn oid_key() -> Seq<char> {
    "$oid"@
}

/// Key of the date wrapper produced by the data source driver.
pub open spec fn date_key() -> Seq<char> {
    "$date"@
}

/// The single field of a one-field object, if the value is one.
pub open spec fn single_field(v: ValS) -> Option<(Seq<char>, ValS)> {
    match v {
        ValS::Obj(fs) => if fs.len() == 1 {
            Some(fs[0])
        } else {
            None
        },
        _ => None,
    }
}

/// Whether `v` is a one-field object whose key is `key`.
pub open spec fn is_wrapper(v: ValS, key: Seq<char>) -> bool {
    match single_field(v) {
        Some(f) => f.0 == key,
        None => false,
    }
}

/// Whether `v` has one of the two driver wrapper shapes.
pub open spec fn is_wrapper_shaped(v: ValS) -> bool {
    is_wrapper(v, oid_key()) || is_wrapper(v, date_key())
}

/// The inner value of a one-field object; `v` itself otherwise.
pub open spec fn inner_of(v: ValS) -> ValS {
    match single_field(v) {
        Some(f) => f.1,
        None => v,
    }
}

/// What one top-level field value becomes under normalization: a wrapper is
/// unwrapped one level, anything else is unchanged. For an identifier
/// wrapper the inner value is its identifier string, so unwrapping one
/// level leaves exactly that plain string.
pub open spec fn unwrap_field(v: ValS) -> ValS {
    if is_wrapper_shaped(v) {
        inner_of(v)
    } else {
        v
    }
}

/// Whether normalization of one field value can succeed: an identifier
/// wrapper must hold a string-typed inner value.
pub open spec fn field_ok(v: ValS) -> bool {
    is_wrapper(v, oid_key()) ==> inner_of(v) is Str
}

/// Whether normalization of every field in a field sequence can succeed.
pub open spec fn fields_ok(fs: Seq<(Seq<char>, ValS)>) -> bool {
    forall|i: int| 0 <= i < fs.len() ==> #[trigger] field_ok(fs[i].1)
}

/// Whether normalization of a whole document can succeed.
pub open spec fn norm_ok(d: ValS) -> bool {
    match d {
        ValS::Obj(fs) => fields_ok(fs),
        _ => true,
    }
}

/// Normalization of a document's top-level field sequence.
pub open spec fn norm_fields(fs: Seq<(Seq<char>, ValS)>) -> Seq<(Seq<char>, ValS)> {
    fs.map(|i: int, f: (Seq<char>, ValS)| (f.0, unwrap_field(f.1)))
}

/// Normalization of a whole document: each top-level field of an object is
/// unwrapped where wrapper-shaped; a non-object document is unchanged.
/// Deliberately non-recursive: nested sub-documents keep their wrappers.
pub open spec fn normalize_spec(d: ValS) -> ValS {
    match d {
        ValS::Obj(fs) => ValS::Obj(norm_fields(fs)),
        _ => d,
    }
}

/// Normalizes one top-level field value.
fn normalize_field_value(v: Val) -> (r: Result<Val, RunError>)
    ensures
        field_ok(v@) ==> (r matches Ok(nv) && nv@ == unwrap_field(v@)),
        !field_ok(v@) ==> (r matches Err(e) && e is Normalization),
{
    let ghost vv = v@;
    match v {
        Val::Obj(mut inner) => {
            let ghost inner0 = inner@;
            proof {
                lemma_view_fields(inner0);
            }
            if inner.len() == 1 {
                let (k, iv) = inner.remove(0);
                let ghost kv = (k@, iv@);
                proof {
                    assert(vv == ValS::Obj(view_fields(inner0)));
                    assert(view_fields(inner0)[0] == kv);
                    assert(single_field(vv) == Some(kv));
                }
                let oidk = String::from_str("$oid");
                let datek = String::from_str("$date");
                if k == oidk {
                    match iv {
                        Val::Str(s) => Ok(Val::Str(s)),
                        other => Err(
                            RunError::Normalization(
                                String::from_str(
                                    "object identifier wrapper does not hold a string",
                                ),
                            ),
                        ),
                    }
                } else if k == datek {
                    Ok(iv)
                } else {
                    let mut rebuilt: Vec<(String, Val)> = Vec::new();
                    rebuilt.push((k, iv));
                    proof {
                        lemma_view_fields(rebuilt@);
                        assert(view_fields(rebuilt@).len() == 1);
                        assert(view_fields(rebuilt@)[0] == kv);
                        assert(view_fields(rebuilt@) =~= view_fields(inner0));
                        assert(Val::Obj(rebuilt)@ == ValS::Obj(view_fields(rebuilt@)));
                        assert(Val::Obj(rebuilt)@ =~= vv);
                    }
                    Ok(Val::Obj(rebuilt))
                }
            } else {
                Ok(Val::Obj(inner))
            }
        },
        other => Ok(other),
    }
}

/// Replaces every top-level wrapper-shaped field of `doc` with its unwrapped
/// form: an identifier wrapper becomes its plain identifier string, a date
/// wrapper becomes its inner value. Non-object documents and non-wrapper
/// fields are left untouched; nothing below the top level is inspected.
pub fn convert_bson_fields_to_json_fields(doc: Val) -> (r: Result<Val, RunError>)
    ensures
        norm_ok(doc@) ==> (r matches Ok(nd) && nd@ == normalize_spec(doc@)),
        !norm_ok(doc@) ==> (r matches Err(e) && e is Normalization),
{
    let ghost dv = doc@;
    match doc {
        Val::Obj(mut fields) => {
            let ghost orig = fields@;
            proof {
                lemma_view_fields(orig);
            }
            let mut out: Vec<(String, Val)> = Vec::new();
            while fields.len() > 0
                invariant
                    out.len() + fields.len() == orig.len(),
                    fields@ =~= orig.subrange(out.len() as int, orig.len() as int),
                    view_fields(out@).len() == out.len(),
                    forall|j: int|
                        0 <= j < out.len() ==> #[trigger] view_fields(out@)[j] == norm_fields(
                            view_fields(orig),
                        )[j],
                    forall|j: int|
                        0 <= j < out.len() ==> field_ok((#[trigger] view_fields(orig)[j]).1),
                    dv == ValS::Obj(view_fields(orig)),
                    dv == doc@,
                decreases fields.len(),
            {
                let ghost k = out.len() as int;
                proof {
                    lemma_view_fields(orig);
                    assert(fields@[0] == orig[k]);
                }
                let (key, v) = fields.remove(0);
                proof {
                    assert(view_fields(orig)[k] == (key@, v@));
                }
                match normalize_field_value(v) {
                    Ok(nv) => {
                        let ghost out_before = out@;
                        out.push((key, nv));
                        proof {
                            lemma_view_fields(out@);
                            lemma_view_fields(out_before);
                            assert(out@ =~= out_before.push((key, nv)));
                            assert forall|j: int| 0 <= j < out.len() implies #[trigger] view_fields(
                                out@,
                            )[j] == norm_fields(view_fields(orig))[j] by {
                                if j < out.len() - 1 {
                                    assert(out@[j] == out_before[j]);
                                    assert(view_fields(out@)[j] == view_fields(out_before)[j]);
                                }
                            }
                        }
                    },
                    Err(e) => {
                        proof {
                            assert(!norm_ok(ValS::Obj(view_fields(orig)))) by {
                                assert(0 <= k < view_fields(orig).len());
                                assert(!field_ok((view_fields(orig)[k]).1));
                            }
                            assert(!norm_ok(dv));
                        }
                        return Err(e);
                    },
                }
            }
            proof {
                assert(view_fields(out@) =~= norm_fields(view_fields(orig)));
                assert(norm_ok(dv));
                assert(Val::Obj(out)@ =~= normalize_spec(dv)) by {
                    lemma_view_fields(out@);
                }
            }
            Ok(Val::Obj(out))
        },
        other => Ok(other),
    }
}

/// The top-level field sequence of a document; empty for a non-object.
pub open spec fn top_fields(d: ValS) -> Seq<(Seq<char>, ValS)> {
    match d {
        ValS::Obj(fs) => fs,
        _ => Seq::empty(),
    }
}

/// Whether no top-level field of `d` is wrapper-shaped.
pub open spec fn no_top_wrappers(d: ValS) -> bool {
    forall|i: int| 0 <= i < top_fields(d).len() ==> !is_wrapper_shaped(#[trigger] top_fields(d)[i].1)
}

/// Whether `s` is a 24-character hexadecimal identifier.
pub open spec fn is_hex24(s: Seq<char>) -> bool {
    &&& s.len() == 24
    &&& forall|i: int|
        0 <= i < s.len() ==> {
            let c = #[trigger] s[i];
            ('0' <= c && c <= '9') || ('a' <= c && c <= 'f') || ('A' <= c && c <= 'F')
        }
}

/// Law: a top-level field shaped as an object-identifier wrapper around a
/// 24-hex-character string normalizes to exactly that plain string; every
/// other field keeps its position and key.
pub proof fn lemma_oid_field_normalized(d: ValS, i: int, hex: Seq<char>)
    requires
        d is Obj,
        0 <= i < top_fields(d).len(),
        top_fields(d)[i].1 == ValS::Obj(seq![(oid_key(), ValS::Str(hex))]),
        is_hex24(hex),
    ensures
        normalize_spec(d) is Obj,
        top_fields(normalize_spec(d)).len() == top_fields(d).len(),
        top_fields(normalize_spec(d))[i] == (top_fields(d)[i].0, ValS::Str(hex)),
{
    let fs = top_fields(d);
    assert(normalize_spec(d) == ValS::Obj(norm_fields(fs)));
    assert(single_field(fs[i].1) == Some((oid_key(), ValS::Str(hex))));
    assert(norm_fields(fs)[i] == (fs[i].0, unwrap_field(fs[i].1)));
}

/// Law: a top-level field shaped as a date wrapper around any value `x`
/// normalizes to `x` itself, unwrapped one level, whatever kind of value
/// `x` is.
pub proof fn lemma_date_field_normalized(d: ValS, i: int, x: ValS)
    requires
        d is Obj,
        0 <= i < top_fields(d).len(),
        top_fields(d)[i].1 == ValS::Obj(seq![(date_key(), x)]),
    ensures
        normalize_spec(d) is Obj,
        top_fields(normalize_spec(d)).len() == top_fields(d).len(),
        top_fields(normalize_spec(d))[i] == (top_fields(d)[i].0, x),
{
    let fs = top_fields(d);
    reveal_strlit("$oid");
    reveal_strlit("$date");
    assert(oid_key().len() == 4 && date_key().len() == 5);
    assert(single_field(fs[i].1) == Some((date_key(), x)));
    assert(is_wrapper(fs[i].1, date_key()));
    assert(!is_wrapper(fs[i].1, oid_key()));
    assert(norm_fields(fs)[i] == (fs[i].0, unwrap_field(fs[i].1)));
}

/// Law: a document with no wrapper-shaped top-level field normalizes to
/// itself.
pub proof fn lemma_normalize_identity(d: ValS)
    requires
        no_top_wrappers(d),
    ensures
        normalize_spec(d) == d,
{
    match d {
        ValS::Obj(fs) => {
            assert(top_fields(d) == fs);
            assert forall|i: int| 0 <= i < fs.len() implies #[trigger] norm_fields(fs)[i] == fs[
                i
            ] by {
                assert(!is_wrapper_shaped(top_fields(d)[i].1));
                assert(norm_fields(fs)[i] == (fs[i].0, unwrap_field(fs[i].1)));
            }
            assert(norm_fields(fs) =~= fs);
            assert(normalize_spec(d) =~= d);
        },
        _ => {},
    }
}

/// Law: normalization is idempotent wherever its first pass left no
/// wrapper-shaped top-level field behind. (A date wrapper whose inner value
/// is itself wrapper-shaped leaves such a field, so a second pass can
/// unwrap further; this premise excludes exactly those documents.)
pub proof fn lemma_normalize_idempotent(d: ValS)
    requires
        no_top_wrappers(normalize_spec(d)),
    ensures
        normalize_spec(normalize_spec(d)) == normalize_spec(d),
{
    lemma_normalize_identity(normalize_spec(d));
}

} // verus!
