use vstd::prelude::*;
use crate::value::{Val, ValS, view_items, lemma_view_items, view_fields, lemma_view_fields};

verus! {

/// `n` space characters.
pub open spec fn spaces(n: nat) -> Seq<char>
    decreases n,
{
    if n == 0 {
        Seq::empty()
    } else {
        spaces((n - 1) as nat) + seq![' ']
    }
}

/// The lower-case hexadecimal digit for `d`.
pub open spec fn hex_digit_char(d: nat) -> char {
    if d < 10 {
        ((48 + d) as u8) as char
    } else {
        ((87 + d) as u8) as char
    }
}

/// The JSON escape of one character of a string.
pub open spec fn esc_char(c: char) -> Seq<char> {
    if c == '"' {
        seq!['\\', '"']
    } else if c == '\\' {
        seq!['\\', '\\']
    } else if c == '\n' {
        seq!['\\', 'n']
    } else if c == '\r' {
        seq!['\\', 'r']
    } else if c == '\t' {
        seq!['\\', 't']
    } else if c == '\u{8}' {
        seq!['\\', 'b']
    } else if c == '\u{c}' {
        seq!['\\', 'f']
    } else if (c as u32) < 32 {
        seq!['\\', 'u', '0', '0', hex_digit_char((c as u32 / 16) as nat), hex_digit_char(
            (c as u32 % 16) as nat,
        )]
    } else {
        seq![c]
    }
}

/// The JSON escape of a whole string, without the quotes.
pub open spec fn esc_str(s: Seq<char>) -> Seq<char>
    decreases s.len(),
{
    if s.len() == 0 {
        Seq::empty()
    } else {
        esc_char(s[0]) + esc_str(s.drop_first())
    }
}

/// A quoted, escaped JSON string literal.
pub open spec fn quoted(s: Seq<char>) -> Seq<char> {
    seq!['"'] + esc_str(s) + seq!['"']
}

/// The pretty-printed text of a value at indentation depth `ind`
/// (two spaces per depth level).
pub open spec fn pretty(v: ValS, ind: nat) -> Seq<char>
    decreases v, 1int,
{
    match v {
        ValS::Null => "null"@,
        ValS::Bool(b) => if b {
            "true"@
        } else {
            "false"@
        },
        ValS::Num(t) => t,
        ValS::Str(s) => quoted(s),
        ValS::Arr(items) => if items.len() == 0 {
            "[]"@
        } else {
            seq!['['] + items_text(items, (ind + 1) as nat) + seq!['\n'] + spaces(2 * ind)
                + seq![']']
        },
        ValS::Obj(fields) => if fields.len() == 0 {
            "{}"@
        } else {
            seq!['{'] + fields_text(fields, (ind + 1) as nat) + seq!['\n'] + spaces(2 * ind)
                + seq!['}']
        },
    }
}

/// The lines of an array body: each element on its own indented line,
/// separated by commas.
pub open spec fn items_text(items: Seq<ValS>, ind: nat) -> Seq<char>
    decreases items, 0int,
{
    if items.len() == 0 {
        Seq::empty()
    } else {
        proof {
            assert(decreases_to!(items => items[0]));
            assert(decreases_to!(items => items.subrange(1, items.len() as int)));
        }
        let head = seq!['\n'] + spaces(2 * ind) + pretty(items[0], ind);
        if items.len() == 1 {
            head
        } else {
            head + seq![','] + items_text(items.subrange(1, items.len() as int), ind)
        }
    }
}

/// The lines of an object body: each `"key": value` on its own indented
/// line, separated by commas.
pub open spec fn fields_text(fields: Seq<(Seq<char>, ValS)>, ind: nat) -> Seq<char>
    decreases fields, 0int,
{
    if fields.len() == 0 {
        Seq::empty()
    } else {
        proof {
            assert(decreases_to!(fields => fields[0]));
            assert(decreases_to!(fields[0] => fields[0].1));
            assert(decreases_to!(fields => fields.subrange(1, fields.len() as int)));
        }
        let head = seq!['\n'] + spaces(2 * ind) + quoted(fields[0].0) + ": "@ + pretty(
            fields[0].1,
            ind,
        );
        if fields.len() == 1 {
            head
        } else {
            head + seq![','] + fields_text(fields.subrange(1, fields.len() as int), ind)
        }
    }
}

/// The whole output text for one stage: the normalized documents as one
/// pretty-printed JSON array.
pub open spec fn render_spec(docs: Seq<ValS>) -> Seq<char> {
    pretty(ValS::Arr(docs), 0)
}

/// Escaping distributes over appending one character.
pub proof fn lemma_esc_str_push(s: Seq<char>, c: char)
    ensures
        esc_str(s.push(c)) == esc_str(s) + esc_char(c),
    decreases s.len(),
{
    reveal_with_fuel(esc_str, 3);
    if s.len() == 0 {
        assert(s.push(c) =~= seq![c]);
        assert(s.push(c).drop_first() =~= Seq::<char>::empty());
        assert(esc_str(s.push(c)) =~= esc_str(s) + esc_char(c));
    } else {
        assert(s.push(c).drop_first() =~= s.drop_first().push(c));
        lemma_esc_str_push(s.drop_first(), c);
        assert(esc_str(s.push(c)) =~= esc_str(s) + esc_char(c));
    }
}

/// One step of an array body: the text of the tail starting at `i` begins
/// with element `i`'s own line.
pub proof fn lemma_items_text_step(items: Seq<ValS>, i: int, ind: nat)
    requires
        0 <= i < items.len(),
    ensures
        items_text(items.subrange(i, items.len() as int), ind) == seq!['\n'] + spaces(2 * ind)
            + pretty(items[i], ind) + if i + 1 < items.len() {
            seq![','] + items_text(items.subrange(i + 1, items.len() as int), ind)
        } else {
            Seq::<char>::empty()
        },
{
    let tail = items.subrange(i, items.len() as int);
    assert(tail[0] == items[i]);
    if i + 1 < items.len() {
        assert(tail.subrange(1, tail.len() as int) =~= items.subrange(i + 1, items.len() as int));
        assert(items_text(tail, ind) =~= seq!['\n'] + spaces(2 * ind) + pretty(items[i], ind)
            + seq![','] + items_text(items.subrange(i + 1, items.len() as int), ind));
    } else {
        assert(items_text(tail, ind) =~= seq!['\n'] + spaces(2 * ind) + pretty(items[i], ind));
        assert(items_text(tail, ind) =~= seq!['\n'] + spaces(2 * ind) + pretty(items[i], ind)
            + Seq::<char>::empty());
    }
}

/// One step of an object body, as for arrays.
pub proof fn lemma_fields_text_step(fields: Seq<(Seq<char>, ValS)>, i: int, ind: nat)
    requires
        0 <= i < fields.len(),
    ensures
        fields_text(fields.subrange(i, fields.len() as int), ind) == seq!['\n'] + spaces(2 * ind)
            + quoted(fields[i].0) + ": "@ + pretty(fields[i].1, ind) + if i + 1 < fields.len() {
            seq![','] + fields_text(fields.subrange(i + 1, fields.len() as int), ind)
        } else {
            Seq::<char>::empty()
        },
{
    let tail = fields.subrange(i, fields.len() as int);
    assert(tail[0] == fields[i]);
    if i + 1 < fields.len() {
        assert(tail.subrange(1, tail.len() as int) =~= fields.subrange(
            i + 1,
            fields.len() as int,
        ));
        assert(fields_text(tail, ind) =~= seq!['\n'] + spaces(2 * ind) + quoted(fields[i].0)
            + ": "@ + pretty(fields[i].1, ind) + seq![','] + fields_text(
            fields.subrange(i + 1, fields.len() as int),
            ind,
        ));
    } else {
        assert(fields_text(tail, ind) =~= seq!['\n'] + spaces(2 * ind) + quoted(fields[i].0)
            + ": "@ + pretty(fields[i].1, ind));
        assert(fields_text(tail, ind) =~= seq!['\n'] + spaces(2 * ind) + quoted(fields[i].0)
            + ": "@ + pretty(fields[i].1, ind) + Seq::<char>::empty());
    }
}

/// Appends the characters of `s` to `out`.
fn push_lit(out: &mut Vec<char>, s: &str)
    ensures
        final(out)@ == old(out)@ + s@,
{
    let n = s.unicode_len();
    let mut i: usize = 0;
    while i < n
        invariant
            i <= n,
            n == s@.len(),
            out@ == old(out)@ + s@.subrange(0, i as int),
        decreases n - i,
    {
        let c = s.get_char(i);
        out.push(c);
        proof {
            assert(s@.subrange(0, i + 1) =~= s@.subrange(0, i as int).push(c));
        }
        i += 1;
    }
    proof {
        assert(s@.subrange(0, n as int) =~= s@);
    }
}

/// Appends the characters of `s` to `out`.
fn push_chars(out: &mut Vec<char>, s: &Vec<char>)
    ensures
        final(out)@ == old(out)@ + s@,
{
    let n = s.len();
    let mut i: usize = 0;
    while i < n
        invariant
            i <= n,
            n == s@.len(),
            out@ == old(out)@ + s@.subrange(0, i as int),
        decreases n - i,
    {
        let c = s[i];
        out.push(c);
        proof {
            assert(s@.subrange(0, i + 1) =~= s@.subrange(0, i as int).push(c));
        }
        i += 1;
    }
    proof {
        assert(s@.subrange(0, n as int) =~= s@);
    }
}

/// The lower-case hexadecimal digit character for `d`.
fn hex_digit(d: u8) -> (c: char)
    requires
        d < 16,
    ensures
        c == hex_digit_char(d as nat),
{
    if d < 10 {
        (48 + d) as char
    } else {
        (87 + d) as char
    }
}

/// Appends the quoted, escaped form of `s` to `out`.
fn push_quoted(out: &mut Vec<char>, s: &str)
    ensures
        final(out)@ == old(out)@ + quoted(s@),
{
    out.push('"');
    let n = s.unicode_len();
    let mut i: usize = 0;
    while i < n
        invariant
            i <= n,
            n == s@.len(),
            out@ == old(out)@ + seq!['"'] + esc_str(s@.subrange(0, i as int)),
        decreases n - i,
    {
        let c = s.get_char(i);
        if c == '"' {
            out.push('\\');
            out.push('"');
        } else if c == '\\' {
            out.push('\\');
            out.push('\\');
        } else if c == '\n' {
            out.push('\\');
            out.push('n');
        } else if c == '\r' {
            out.push('\\');
            out.push('r');
        } else if c == '\t' {
            out.push('\\');
            out.push('t');
        } else if c == '\u{8}' {
            out.push('\\');
            out.push('b');
        } else if c == '\u{c}' {
            out.push('\\');
            out.push('f');
        } else {
            let u = c as u32;
            if u < 32 {
                out.push('\\');
                out.push('u');
                out.push('0');
                out.push('0');
                out.push(hex_digit((u / 16) as u8));
                out.push(hex_digit((u % 16) as u8));
            } else {
                out.push(c);
            }
        }
        proof {
            lemma_esc_str_push(s@.subrange(0, i as int), c);
            assert(s@.subrange(0, i + 1) =~= s@.subrange(0, i as int).push(c));
            assert(out@ =~= old(out)@ + seq!['"'] + esc_str(s@.subrange(0, i + 1)));
        }
        i += 1;
    }
    out.push('"');
    proof {
        assert(s@.subrange(0, n as int) =~= s@);
        assert(out@ =~= old(out)@ + quoted(s@));
    }
}

/// Appends the pretty-printed text of `v` to `out`; `indent` is the
/// current indentation, two spaces per depth level.
#[verifier::loop_isolation(false)]
fn write_val(v: &Val, indent: &Vec<char>, Ghost(ind): Ghost<nat>, out: &mut Vec<char>)
    requires
        indent@ == spaces(2 * ind),
    ensures
        final(out)@ == old(out)@ + pretty(v@, ind),
    decreases *v, 1int,
{
    match v {
        Val::Null => {
            push_lit(out, "null");
        },
        Val::Bool(b) => {
            if *b {
                push_lit(out, "true");
            } else {
                push_lit(out, "false");
            }
        },
        Val::Num(t) => {
            push_lit(out, t.as_str());
        },
        Val::Str(s) => {
            push_quoted(out, s.as_str());
        },
        Val::Arr(items) => {
            proof {
                assert(decreases_to!(*v => *items));
            }
            write_arr(items, indent, Ghost(ind), out);
            proof {
                assert(v@ == ValS::Arr(view_items(items@)));
            }
        },
        Val::Obj(fields) => {
            proof {
                assert(decreases_to!(*v => *fields));
            }
            write_obj(fields, indent, Ghost(ind), out);
            proof {
                assert(v@ == ValS::Obj(view_fields(fields@)));
            }
        },
    }
}

/// Appends the pretty-printed text of an array to `out`.
#[verifier::loop_isolation(false)]
#[verifier::rlimit(100)]
fn write_arr(items: &Vec<Val>, indent: &Vec<char>, Ghost(ind): Ghost<nat>, out: &mut Vec<char>)
    requires
        indent@ == spaces(2 * ind),
    ensures
        final(out)@ == old(out)@ + pretty(ValS::Arr(view_items(items@)), ind),
    decreases *items, 0int,
{
    let ghost vs = view_items(items@);
    proof {
        lemma_view_items(items@);
    }
    if items.len() == 0 {
        push_lit(out, "[]");
        proof {
            assert(vs =~= Seq::<ValS>::empty());
        }
    } else {
        out.push('[');
        let mut child: Vec<char> = Vec::new();
        push_chars(&mut child, indent);
        child.push(' ');
        child.push(' ');
        proof {
            reveal_with_fuel(spaces, 3);
            assert(child@ =~= spaces(2 * (ind + 1)));
        }
        let ghost mut done = Seq::<char>::empty();
        proof {
            assert(vs.subrange(0, vs.len() as int) =~= vs);
            assert(done + items_text(vs, (ind + 1) as nat) =~= items_text(vs, (ind + 1) as nat));
        }
        let n = items.len();
        let mut i: usize = 0;
        while i < n
            invariant
                i <= n,
                n == items@.len(),
                out@ == old(out)@ + seq!['['] + done,
                done + items_text(vs.subrange(i as int, vs.len() as int), (ind + 1) as nat)
                    == items_text(vs, (ind + 1) as nat),
            decreases n - i,
        {
            out.push('\n');
            push_chars(out, &child);
            proof {
                assert(decreases_to!(*items => items@));
                assert(decreases_to!(items@ => items@[i as int]));
            }
            write_val(&items[i], &child, Ghost((ind + 1) as nat), out);
            let ghost chunk = seq!['\n'] + spaces(2 * ((ind + 1) as nat)) + pretty(
                vs[i as int],
                (ind + 1) as nat,
            );
            if i + 1 < n {
                out.push(',');
                proof {
                    chunk = chunk + seq![','];
                }
            }
            proof {
                lemma_items_text_step(vs, i as int, (ind + 1) as nat);
                assert(items@[i as int].deep_view() == vs[i as int]);
                assert(out@ =~= old(out)@ + seq!['['] + (done + chunk));
                done = done + chunk;
            }
            i += 1;
        }
        proof {
            assert(vs.subrange(i as int, vs.len() as int) =~= Seq::<ValS>::empty());
            assert(done == items_text(vs, (ind + 1) as nat));
        }
        out.push('\n');
        push_chars(out, indent);
        out.push(']');
        proof {
            assert(out@ =~= old(out)@ + pretty(ValS::Arr(vs), ind));
        }
    }
}

/// Appends the pretty-printed text of an object to `out`.
#[verifier::loop_isolation(false)]
#[verifier::rlimit(100)]
fn write_obj(
    fields: &Vec<(String, Val)>,
    indent: &Vec<char>,
    Ghost(ind): Ghost<nat>,
    out: &mut Vec<char>,
)
    requires
        indent@ == spaces(2 * ind),
    ensures
        final(out)@ == old(out)@ + pretty(ValS::Obj(view_fields(fields@)), ind),
    decreases *fields, 0int,
{
    let ghost vf = view_fields(fields@);
    proof {
        lemma_view_fields(fields@);
    }
    if fields.len() == 0 {
        push_lit(out, "{}");
        proof {
            assert(vf =~= Seq::<(Seq<char>, ValS)>::empty());
        }
    } else {
        out.push('{');
        let mut child: Vec<char> = Vec::new();
        push_chars(&mut child, indent);
        child.push(' ');
        child.push(' ');
        proof {
            reveal_with_fuel(spaces, 3);
            assert(child@ =~= spaces(2 * (ind + 1)));
        }
        let ghost mut done = Seq::<char>::empty();
        proof {
            assert(vf.subrange(0, vf.len() as int) =~= vf);
            assert(done + fields_text(vf, (ind + 1) as nat) =~= fields_text(vf, (ind + 1) as nat));
        }
        let n = fields.len();
        let mut i: usize = 0;
        while i < n
            invariant
                i <= n,
                n == fields@.len(),
                out@ == old(out)@ + seq!['{'] + done,
                done + fields_text(vf.subrange(i as int, vf.len() as int), (ind + 1) as nat)
                    == fields_text(vf, (ind + 1) as nat),
            decreases n - i,
        {
            out.push('\n');
            push_chars(out, &child);
            push_quoted(out, fields[i].0.as_str());
            push_lit(out, ": ");
            proof {
                assert(decreases_to!(*fields => fields@));
                assert(decreases_to!(fields@ => fields@[i as int]));
                assert(decreases_to!(fields@[i as int] => fields@[i as int].1));
            }
            write_val(&fields[i].1, &child, Ghost((ind + 1) as nat), out);
            let ghost chunk = seq!['\n'] + spaces(2 * ((ind + 1) as nat)) + quoted(
                vf[i as int].0,
            ) + ": "@ + pretty(vf[i as int].1, (ind + 1) as nat);
            if i + 1 < n {
                out.push(',');
                proof {
                    chunk = chunk + seq![','];
                }
            }
            proof {
                lemma_fields_text_step(vf, i as int, (ind + 1) as nat);
                assert(fields@[i as int].0@ == vf[i as int].0);
                assert(fields@[i as int].1.deep_view() == vf[i as int].1);
                assert(out@ =~= old(out)@ + seq!['{'] + (done + chunk));
                done = done + chunk;
            }
            i += 1;
        }
        proof {
            assert(vf.subrange(i as int, vf.len() as int) =~= Seq::<(Seq<char>, ValS)>::empty());
            assert(done == fields_text(vf, (ind + 1) as nat));
        }
        out.push('\n');
        push_chars(out, indent);
        out.push('}');
        proof {
            assert(out@ =~= old(out)@ + pretty(ValS::Obj(vf), ind));
        }
    }
}

/// Relies on `Iterator::collect` for `String`: the collected string holds
/// exactly the characters of the vector, in order.
#[verifier::external_body]
pub(crate) fn string_from_chars(v: &Vec<char>) -> (r: String)
    ensures
        r@ == v@,
{
    v.iter().collect()
}

/// Serializes an ordered list of documents as one pretty-printed JSON
/// array, the exact text that one output file holds.
pub fn render_results(docs: Vec<Val>) -> (r: String)
    ensures
        r@ == render_spec(view_items(docs@)),
{
    let ghost ds = view_items(docs@);
    let v = Val::Arr(docs);
    let indent: Vec<char> = Vec::new();
    let mut out: Vec<char> = Vec::new();
    proof {
        assert(indent@ =~= spaces(0));
    }
    write_val(&v, &indent, Ghost(0nat), &mut out);
    proof {
        assert(v@ == ValS::Arr(ds));
        assert(out@ =~= render_spec(ds));
    }
    string_from_chars(&out)
}

} // verus!
