use vstd::prelude::*;
use crate::value::{Val, ValS, view_items, lemma_view_items};
use crate::errors::RunError;

verus! {

/// JSON insignificant whitespace.
pub open spec fn is_ws(c: char) -> bool {
    c == ' ' || c == '\t' || c == '\n' || c == '\r'
}

/// A decimal digit.
pub open spec fn is_digit(c: char) -> bool {
    '0' <= c && c <= '9'
}

/// A hexadecimal digit.
pub open spec fn is_hex(c: char) -> bool {
    is_digit(c) || ('a' <= c && c <= 'f') || ('A' <= c && c <= 'F')
}

/// The value of a hexadecimal digit.
pub open spec fn hex_val(c: char) -> nat {
    if is_digit(c) {
        (c as u32 - 48) as nat
    } else if 'a' <= c && c <= 'f' {
        (c as u32 - 87) as nat
    } else {
        (c as u32 - 55) as nat
    }
}

/// The first position at or after `i` that holds no whitespace.
pub open spec fn skip_ws(s: Seq<char>, i: int) -> int
    decreases s.len() - i,
{
    if 0 <= i < s.len() && is_ws(s[i]) {
        skip_ws(s, i + 1)
    } else {
        i
    }
}

/// `skip_ws` stays within the text and moves only forward.
pub proof fn lemma_skip_ws(s: Seq<char>, i: int)
    requires
        0 <= i <= s.len(),
    ensures
        i <= skip_ws(s, i) <= s.len(),
    decreases s.len() - i,
{
    if i < s.len() && is_ws(s[i]) {
        lemma_skip_ws(s, i + 1);
    }
}

/// The first position at or after `i` that holds no decimal digit.
pub open spec fn scan_digits(s: Seq<char>, i: int) -> int
    decreases s.len() - i,
{
    if 0 <= i < s.len() && is_digit(s[i]) {
        scan_digits(s, i + 1)
    } else {
        i
    }
}

/// `scan_digits` stays within the text and moves only forward.
pub proof fn lemma_scan_digits(s: Seq<char>, i: int)
    requires
        0 <= i <= s.len(),
    ensures
        i <= scan_digits(s, i) <= s.len(),
    decreases s.len() - i,
{
    if i < s.len() && is_digit(s[i]) {
        lemma_scan_digits(s, i + 1);
    }
}

/// Parses a number token starting at `i` (where a `-` or a digit stands):
/// the result is the token's own text and the position after it.
pub open spec fn p_number(s: Seq<char>, i: int) -> Option<(ValS, int)> {
    let j0 = if s[i] == '-' {
        i + 1
    } else {
        i
    };
    if !(j0 < s.len() && is_digit(s[j0])) {
        None
    } else {
        let int_end = if s[j0] == '0' {
            j0 + 1
        } else {
            scan_digits(s, j0)
        };
        let frac_end = if int_end < s.len() && s[int_end] == '.' {
            if int_end + 1 < s.len() && is_digit(s[int_end + 1]) {
                scan_digits(s, int_end + 1)
            } else {
                -1
            }
        } else {
            int_end
        };
        if frac_end < 0 {
            None
        } else {
            let end = if frac_end < s.len() && (s[frac_end] == 'e' || s[frac_end] == 'E') {
                let es = if frac_end + 1 < s.len() && (s[frac_end + 1] == '+' || s[frac_end + 1]
                    == '-') {
                    frac_end + 2
                } else {
                    frac_end + 1
                };
                if es < s.len() && is_digit(s[es]) {
                    scan_digits(s, es)
                } else {
                    -1
                }
            } else {
                frac_end
            };
            if end < 0 {
                None
            } else {
                Some((ValS::Num(s.subrange(i, end)), end))
            }
        }
    }
}

/// Parses the remainder of a string literal from position `i` (just after
/// the opening quote or the previously decoded character): the decoded
/// characters up to the closing quote, and the position after that quote.
pub open spec fn p_str_rest(s: Seq<char>, i: int) -> Option<(Seq<char>, int)>
    decreases s.len() - i,
{
    if !(0 <= i < s.len()) {
        None
    } else {
        let c = s[i];
        if c == '"' {
            Some((Seq::empty(), i + 1))
        } else if c == '\\' {
            if i + 2 <= s.len() {
                let e = s[i + 1];
                if e == 'u' {
                    if i + 6 <= s.len() && is_hex(s[i + 2]) && is_hex(s[i + 3]) && is_hex(s[i + 4])
                        && is_hex(s[i + 5]) {
                        let code = 4096 * hex_val(s[i + 2]) + 256 * hex_val(s[i + 3]) + 16
                            * hex_val(s[i + 4]) + hex_val(s[i + 5]);
                        if 0xD800 <= code < 0xDC00 {
                            if i + 12 <= s.len() && s[i + 6] == '\\' && s[i + 7] == 'u' && is_hex(
                                s[i + 8],
                            ) && is_hex(s[i + 9]) && is_hex(s[i + 10]) && is_hex(s[i + 11]) {
                                let low = 4096 * hex_val(s[i + 8]) + 256 * hex_val(s[i + 9]) + 16
                                    * hex_val(s[i + 10]) + hex_val(s[i + 11]);
                                if 0xDC00 <= low < 0xE000 {
                                    let combined = 0x10000 + (code - 0xD800) * 0x400 + (low
                                        - 0xDC00);
                                    match p_str_rest(s, i + 12) {
                                        Some((rest, j)) => Some(
                                            (seq![((combined as u32) as char)] + rest, j),
                                        ),
                                        None => None,
                                    }
                                } else {
                                    None
                                }
                            } else {
                                None
                            }
                        } else if 0xDC00 <= code < 0xE000 {
                            None
                        } else {
                            match p_str_rest(s, i + 6) {
                                Some((rest, j)) => Some((seq![((code as u32) as char)] + rest, j)),
                                None => None,
                            }
                        }
                    } else {
                        None
                    }
                } else {
                    let dec = if e == '"' {
                        Some('"')
                    } else if e == '\\' {
                        Some('\\')
                    } else if e == '/' {
                        Some('/')
                    } else if e == 'b' {
                        Some('\u{8}')
                    } else if e == 'f' {
                        Some('\u{c}')
                    } else if e == 'n' {
                        Some('\n')
                    } else if e == 'r' {
                        Some('\r')
                    } else if e == 't' {
                        Some('\t')
                    } else {
                        None
                    };
                    match dec {
                        Some(d) => match p_str_rest(s, i + 2) {
                            Some((rest, j)) => Some((seq![d] + rest, j)),
                            None => None,
                        },
                        None => None,
                    }
                }
            } else {
                None
            }
        } else if (c as u32) < 32 {
            None
        } else {
            match p_str_rest(s, i + 1) {
                Some((rest, j)) => Some((seq![c] + rest, j)),
                None => None,
            }
        }
    }
}

/// Parses one JSON value whose first character stands at `i` (no leading
/// whitespace): the value and the position after it.
pub open spec fn p_value(s: Seq<char>, i: int) -> Option<(ValS, int)>
    decreases s.len() - i, 0int,
{
    if !(0 <= i < s.len()) {
        None
    } else {
        let c = s[i];
        if c == 'n' {
            if i + 4 <= s.len() && s[i + 1] == 'u' && s[i + 2] == 'l' && s[i + 3] == 'l' {
                Some((ValS::Null, i + 4))
            } else {
                None
            }
        } else if c == 't' {
            if i + 4 <= s.len() && s[i + 1] == 'r' && s[i + 2] == 'u' && s[i + 3] == 'e' {
                Some((ValS::Bool(true), i + 4))
            } else {
                None
            }
        } else if c == 'f' {
            if i + 5 <= s.len() && s[i + 1] == 'a' && s[i + 2] == 'l' && s[i + 3] == 's' && s[i + 4]
                == 'e' {
                Some((ValS::Bool(false), i + 5))
            } else {
                None
            }
        } else if c == '"' {
            match p_str_rest(s, i + 1) {
                Some((cs, j)) => Some((ValS::Str(cs), j)),
                None => None,
            }
        } else if c == '-' || is_digit(c) {
            p_number(s, i)
        } else if c == '[' {
            proof {
                lemma_skip_ws(s, i + 1);
            }
            let j = skip_ws(s, i + 1);
            if j < s.len() && s[j] == ']' {
                Some((ValS::Arr(Seq::empty()), j + 1))
            } else {
                match p_arr_tail(s, j) {
                    Some((items, k)) => Some((ValS::Arr(items), k)),
                    None => None,
                }
            }
        } else if c == '{' {
            proof {
                lemma_skip_ws(s, i + 1);
            }
            let j = skip_ws(s, i + 1);
            if j < s.len() && s[j] == '}' {
                Some((ValS::Obj(Seq::empty()), j + 1))
            } else {
                match p_obj_tail(s, j) {
                    Some((fields, k)) => Some((ValS::Obj(fields), k)),
                    None => None,
                }
            }
        } else {
            None
        }
    }
}

/// Parses the elements of a non-empty array from the first character of an
/// element at `i`: the elements and the position after the closing `]`.
pub open spec fn p_arr_tail(s: Seq<char>, i: int) -> Option<(Seq<ValS>, int)>
    decreases s.len() - i, 1int,
{
    if !(0 <= i <= s.len()) {
        None
    } else {
        match p_value(s, i) {
            Some((v, j)) => if !(i < j <= s.len()) {
                None
            } else {
                proof {
                    lemma_skip_ws(s, j);
                }
                let k = skip_ws(s, j);
                if k < s.len() && s[k] == ',' {
                    proof {
                        lemma_skip_ws(s, k + 1);
                    }
                    match p_arr_tail(s, skip_ws(s, k + 1)) {
                        Some((rest, m)) => Some((seq![v] + rest, m)),
                        None => None,
                    }
                } else if k < s.len() && s[k] == ']' {
                    Some((seq![v], k + 1))
                } else {
                    None
                }
            },
            None => None,
        }
    }
}

/// Parses the fields of a non-empty object from the opening quote of a key
/// at `i`: the fields and the position after the closing `}`.
pub open spec fn p_obj_tail(s: Seq<char>, i: int) -> Option<(Seq<(Seq<char>, ValS)>, int)>
    decreases s.len() - i, 1int,
{
    if !(0 <= i < s.len() && s[i] == '"') {
        None
    } else {
        match p_str_rest(s, i + 1) {
            Some((key, j)) => if !(i < j <= s.len()) {
                None
            } else {
                proof {
                    lemma_skip_ws(s, j);
                }
                let co = skip_ws(s, j);
                if !(co < s.len() && s[co] == ':') {
                    None
                } else {
                    proof {
                        lemma_skip_ws(s, co + 1);
                    }
                    let vs = skip_ws(s, co + 1);
                    match p_value(s, vs) {
                        Some((v, k)) => if !(vs < k <= s.len()) {
                            None
                        } else {
                            proof {
                                lemma_skip_ws(s, k);
                            }
                            let m = skip_ws(s, k);
                            if m < s.len() && s[m] == ',' {
                                proof {
                                    lemma_skip_ws(s, m + 1);
                                }
                                match p_obj_tail(s, skip_ws(s, m + 1)) {
                                    Some((rest, e)) => Some((seq![(key, v)] + rest, e)),
                                    None => None,
                                }
                            } else if m < s.len() && s[m] == '}' {
                                Some((seq![(key, v)], m + 1))
                            } else {
                                None
                            }
                        },
                        None => None,
                    }
                }
            },
            None => None,
        }
    }
}

/// The meaning of a whole JSON text: its single value, with whitespace
/// allowed around it, or nothing when the text is not valid JSON.
pub open spec fn json_parse(s: Seq<char>) -> Option<ValS> {
    let i = skip_ws(s, 0);
    match p_value(s, i) {
        Some((v, j)) => if 0 <= j <= s.len() && skip_ws(s, j) == s.len() {
            Some(v)
        } else {
            None
        },
        None => None,
    }
}

/// Whether every element of a sequence of values is an object.
pub open spec fn all_objects(ds: Seq<ValS>) -> bool {
    forall|i: int| 0 <= i < ds.len() ==> (#[trigger] ds[i]) is Obj
}

/// The pipeline a text describes: the stages of its top-level array, when
/// the text is valid JSON, its top level is an array, and every element is
/// an object.
pub open spec fn pipeline_spec(s: Seq<char>) -> Option<Seq<ValS>> {
    match json_parse(s) {
        Some(ValS::Arr(items)) => if all_objects(items) {
            Some(items)
        } else {
            None
        },
        _ => None,
    }
}

/// Relies on `char::from_u32`: a character exists exactly for the unicode
/// scalar values, and carries the given code.
#[verifier::external_body]
fn char_from_u32(n: u32) -> (r: Option<char>)
    ensures
        r matches Some(c) ==> c == n as char && c as u32 == n,
        (n < 0xD800 || (0xE000 <= n && n < 0x110000)) ==> r is Some,
{
    char::from_u32(n)
}

/// The whitespace scan, executably.
fn skip_ws_x(s: &Vec<char>, i: usize) -> (r: usize)
    requires
        i <= s@.len(),
    ensures
        r as int == skip_ws(s@, i as int),
        i <= r <= s@.len(),
{
    let mut j = i;
    while j < s.len() && (s[j] == ' ' || s[j] == '\t' || s[j] == '\n' || s[j] == '\r')
        invariant
            i <= j <= s@.len(),
            skip_ws(s@, i as int) == skip_ws(s@, j as int),
        decreases s@.len() - j,
    {
        j += 1;
    }
    proof {
        assert(skip_ws(s@, j as int) == j);
    }
    j
}

/// The digit scan, executably.
fn scan_digits_x(s: &Vec<char>, i: usize) -> (r: usize)
    requires
        i <= s@.len(),
    ensures
        r as int == scan_digits(s@, i as int),
        i <= r <= s@.len(),
{
    let mut j = i;
    while j < s.len() && '0' <= s[j] && s[j] <= '9'
        invariant
            i <= j <= s@.len(),
            scan_digits(s@, i as int) == scan_digits(s@, j as int),
        decreases s@.len() - j,
    {
        j += 1;
    }
    proof {
        assert(scan_digits(s@, j as int) == j);
    }
    j
}

/// The value of a hexadecimal digit, executably.
fn hex_val_x(c: char) -> (d: u32)
    requires
        is_hex(c),
    ensures
        d == hex_val(c),
{
    let u = c as u32;
    if u >= 97 {
        u - 87
    } else if u >= 65 {
        u - 55
    } else {
        u - 48
    }
}

/// Parses a number token, executably.
fn number_x(s: &Vec<char>, i: usize) -> (r: Option<(Val, usize)>)
    requires
        i < s@.len(),
        s@[i as int] == '-' || is_digit(s@[i as int]),
    ensures
        r matches Some(p) ==> (p_number(s@, i as int) == Some((p.0@, p.1 as int)) && i < p.1
            <= s@.len()),
        r is None ==> p_number(s@, i as int) is None,
{
    let n = s.len();
    let j0: usize = if s[i] == '-' {
        i + 1
    } else {
        i
    };
    if !(j0 < s.len() && '0' <= s[j0] && s[j0] <= '9') {
        return None;
    }
    let int_end: usize = if s[j0] == '0' {
        j0 + 1
    } else {
        scan_digits_x(s, j0)
    };
    proof {
        lemma_scan_digits(s@, j0 as int);
        assert(int_end > j0) by {
            if s@[j0 as int] != '0' {
                assert(scan_digits(s@, j0 as int) == scan_digits(s@, j0 + 1));
                lemma_scan_digits(s@, j0 + 1);
            }
        }
    }
    let frac_end: usize = if int_end < s.len() && s[int_end] == '.' {
        if int_end + 1 < s.len() && '0' <= s[int_end + 1] && s[int_end + 1] <= '9' {
            scan_digits_x(s, int_end + 1)
        } else {
            return None;
        }
    } else {
        int_end
    };
    let end: usize = if frac_end < s.len() && (s[frac_end] == 'e' || s[frac_end] == 'E') {
        let es: usize = if frac_end + 1 < s.len() && (s[frac_end + 1] == '+' || s[frac_end + 1]
            == '-') {
            frac_end + 2
        } else {
            frac_end + 1
        };
        if es < s.len() && '0' <= s[es] && s[es] <= '9' {
            scan_digits_x(s, es)
        } else {
            return None;
        }
    } else {
        frac_end
    };
    let mut token: Vec<char> = Vec::new();
    let mut t = i;
    while t < end
        invariant
            i <= t <= end <= s@.len(),
            token@ == s@.subrange(i as int, t as int),
        decreases end - t,
    {
        token.push(s[t]);
        proof {
            assert(s@.subrange(i as int, t + 1) =~= s@.subrange(i as int, t as int).push(
                s@[t as int],
            ));
        }
        t += 1;
    }
    let text = crate::ser::string_from_chars(&token);
    Some((Val::Num(text), end))
}

/// Parses the remainder of a string literal, executably.
#[verifier::rlimit(100)]
fn str_rest_x(s: &Vec<char>, i: usize) -> (r: Option<(Vec<char>, usize)>)
    requires
        i <= s@.len(),
    ensures
        r matches Some(p) ==> (p_str_rest(s@, i as int) == Some((p.0@, p.1 as int)) && i < p.1
            <= s@.len()),
        r is None ==> p_str_rest(s@, i as int) is None,
    decreases s@.len() - i,
{
    if i >= s.len() {
        return None;
    }
    let c = s[i];
    if c == '"' {
        let out: Vec<char> = Vec::new();
        proof {
            assert(out@ =~= Seq::<char>::empty());
        }
        Some((out, i + 1))
    } else if c == '\\' {
        if s.len() - i < 2 {
            return None;
        }
        let e = s[i + 1];
        if e == 'u' {
            if !(s.len() - i >= 6 && hexq(s[i + 2]) && hexq(s[i + 3]) && hexq(s[i + 4]) && hexq(
                s[i + 5],
            )) {
                return None;
            }
            let code: u32 = 4096 * hex_val_x(s[i + 2]) + 256 * hex_val_x(s[i + 3]) + 16 * hex_val_x(
                s[i + 4],
            ) + hex_val_x(s[i + 5]);
            if 0xD800 <= code && code < 0xDC00 {
                if !(s.len() - i >= 12 && s[i + 6] == '\\' && s[i + 7] == 'u' && hexq(s[i + 8])
                    && hexq(s[i + 9]) && hexq(s[i + 10]) && hexq(s[i + 11])) {
                    return None;
                }
                let low: u32 = 4096 * hex_val_x(s[i + 8]) + 256 * hex_val_x(s[i + 9]) + 16
                    * hex_val_x(s[i + 10]) + hex_val_x(s[i + 11]);
                if !(0xDC00 <= low && low < 0xE000) {
                    return None;
                }
                let combined: u32 = 0x10000 + (code - 0xD800) * 0x400 + (low - 0xDC00);
                let d = match char_from_u32(combined) {
                    Some(d) => d,
                    None => {
                        return None;
                    },
                };
                match str_rest_x(s, i + 12) {
                    Some((mut rest, j)) => {
                        let ghost rest0 = rest@;
                        rest.insert(0, d);
                        proof {
                            assert(rest@ =~= seq![d] + rest0);
                        }
                        Some((rest, j))
                    },
                    None => None,
                }
            } else if 0xDC00 <= code && code < 0xE000 {
                None
            } else {
                let d = match char_from_u32(code) {
                    Some(d) => d,
                    None => {
                        return None;
                    },
                };
                match str_rest_x(s, i + 6) {
                    Some((mut rest, j)) => {
                        let ghost rest0 = rest@;
                        rest.insert(0, d);
                        proof {
                            assert(rest@ =~= seq![d] + rest0);
                        }
                        Some((rest, j))
                    },
                    None => None,
                }
            }
        } else {
            let d: char = if e == '"' {
                '"'
            } else if e == '\\' {
                '\\'
            } else if e == '/' {
                '/'
            } else if e == 'b' {
                '\u{8}'
            } else if e == 'f' {
                '\u{c}'
            } else if e == 'n' {
                '\n'
            } else if e == 'r' {
                '\r'
            } else if e == 't' {
                '\t'
            } else {
                return None;
            };
            match str_rest_x(s, i + 2) {
                Some((mut rest, j)) => {
                    let ghost rest0 = rest@;
                    rest.insert(0, d);
                    proof {
                        assert(rest@ =~= seq![d] + rest0);
                    }
                    Some((rest, j))
                },
                None => None,
            }
        }
    } else if (c as u32) < 32 {
        None
    } else {
        match str_rest_x(s, i + 1) {
            Some((mut rest, j)) => {
                let ghost rest0 = rest@;
                rest.insert(0, c);
                proof {
                    assert(rest@ =~= seq![c] + rest0);
                }
                Some((rest, j))
            },
            None => None,
        }
    }
}

/// Whether `c` is a hexadecimal digit, executably.
fn hexq(c: char) -> (r: bool)
    ensures
        r == is_hex(c),
{
    ('0' <= c && c <= '9') || ('a' <= c && c <= 'f') || ('A' <= c && c <= 'F')
}

/// Parses one JSON value, executably.
fn value_x(s: &Vec<char>, i: usize) -> (r: Option<(Val, usize)>)
    requires
        i <= s@.len(),
    ensures
        r matches Some(p) ==> (p_value(s@, i as int) == Some((p.0@, p.1 as int)) && i < p.1
            <= s@.len()),
        r is None ==> p_value(s@, i as int) is None,
    decreases s@.len() - i, 0int,
{
    if i >= s.len() {
        return None;
    }
    let c = s[i];
    if c == 'n' {
        if s.len() - i >= 4 && s[i + 1] == 'u' && s[i + 2] == 'l' && s[i + 3] == 'l' {
            Some((Val::Null, i + 4))
        } else {
            None
        }
    } else if c == 't' {
        if s.len() - i >= 4 && s[i + 1] == 'r' && s[i + 2] == 'u' && s[i + 3] == 'e' {
            Some((Val::Bool(true), i + 4))
        } else {
            None
        }
    } else if c == 'f' {
        if s.len() - i >= 5 && s[i + 1] == 'a' && s[i + 2] == 'l' && s[i + 3] == 's' && s[i + 4]
            == 'e' {
            Some((Val::Bool(false), i + 5))
        } else {
            None
        }
    } else if c == '"' {
        match str_rest_x(s, i + 1) {
            Some((cs, j)) => {
                let text = crate::ser::string_from_chars(&cs);
                Some((Val::Str(text), j))
            },
            None => None,
        }
    } else if c == '-' || ('0' <= c && c <= '9') {
        number_x(s, i)
    } else if c == '[' {
        let j = skip_ws_x(s, i + 1);
        if j < s.len() && s[j] == ']' {
            let items: Vec<Val> = Vec::new();
            proof {
                lemma_view_items(items@);
                assert(view_items(items@) =~= Seq::<ValS>::empty());
            }
            Some((Val::Arr(items), j + 1))
        } else {
            match arr_tail_x(s, j) {
                Some((items, k)) => Some((Val::Arr(items), k)),
                None => None,
            }
        }
    } else if c == '{' {
        let j = skip_ws_x(s, i + 1);
        if j < s.len() && s[j] == '}' {
            let fields: Vec<(String, Val)> = Vec::new();
            proof {
                crate::value::lemma_view_fields(fields@);
                assert(crate::value::view_fields(fields@) =~= Seq::<(Seq<char>, ValS)>::empty());
            }
            Some((Val::Obj(fields), j + 1))
        } else {
            match obj_tail_x(s, j) {
                Some((fields, k)) => Some((Val::Obj(fields), k)),
                None => None,
            }
        }
    } else {
        None
    }
}

/// Parses the elements of a non-empty array, executably.
fn arr_tail_x(s: &Vec<char>, i: usize) -> (r: Option<(Vec<Val>, usize)>)
    requires
        i <= s@.len(),
    ensures
        r matches Some(p) ==> (p_arr_tail(s@, i as int) matches Some(q) && view_items(p.0@) == q.0
            && q.1 == p.1 as int && i < p.1 <= s@.len()),
        r is None ==> p_arr_tail(s@, i as int) is None,
    decreases s@.len() - i, 1int,
{
    let (v, j) = match value_x(s, i) {
        Some(p) => p,
        None => {
            return None;
        },
    };
    let k = skip_ws_x(s, j);
    if k < s.len() && s[k] == ',' {
        let n = skip_ws_x(s, k + 1);
        match arr_tail_x(s, n) {
            Some((mut rest, m)) => {
                let ghost rest0 = rest@;
                let ghost vv = v@;
                rest.insert(0, v);
                proof {
                    assert(rest@ =~= seq![rest@[0]] + rest0);
                    lemma_view_items(rest@);
                    lemma_view_items(rest0);
                    assert(view_items(rest@) =~= seq![vv] + view_items(rest0));
                }
                Some((rest, m))
            },
            None => None,
        }
    } else if k < s.len() && s[k] == ']' {
        let ghost vv = v@;
        let mut items: Vec<Val> = Vec::new();
        items.push(v);
        proof {
            lemma_view_items(items@);
            assert(view_items(items@) =~= seq![vv]);
        }
        Some((items, k + 1))
    } else {
        None
    }
}

/// Parses the fields of a non-empty object, executably.
fn obj_tail_x(s: &Vec<char>, i: usize) -> (r: Option<(Vec<(String, Val)>, usize)>)
    requires
        i <= s@.len(),
    ensures
        r matches Some(p) ==> (p_obj_tail(s@, i as int) matches Some(q) && crate::value::view_fields(
            p.0@,
        ) == q.0 && q.1 == p.1 as int && i < p.1 <= s@.len()),
        r is None ==> p_obj_tail(s@, i as int) is None,
    decreases s@.len() - i, 1int,
{
    if !(i < s.len() && s[i] == '"') {
        return None;
    }
    let (key_chars, j) = match str_rest_x(s, i + 1) {
        Some(p) => p,
        None => {
            return None;
        },
    };
    let key = crate::ser::string_from_chars(&key_chars);
    let co = skip_ws_x(s, j);
    if !(co < s.len() && s[co] == ':') {
        return None;
    }
    let vs = skip_ws_x(s, co + 1);
    let (v, k) = match value_x(s, vs) {
        Some(p) => p,
        None => {
            return None;
        },
    };
    let m = skip_ws_x(s, k);
    if m < s.len() && s[m] == ',' {
        let n = skip_ws_x(s, m + 1);
        match obj_tail_x(s, n) {
            Some((mut rest, e)) => {
                let ghost rest0 = rest@;
                let ghost kv = (key@, v@);
                rest.insert(0, (key, v));
                proof {
                    assert(rest@ =~= seq![rest@[0]] + rest0);
                    crate::value::lemma_view_fields(rest@);
                    crate::value::lemma_view_fields(rest0);
                    assert(crate::value::view_fields(rest@) =~= seq![kv]
                        + crate::value::view_fields(rest0));
                }
                Some((rest, e))
            },
            None => None,
        }
    } else if m < s.len() && s[m] == '}' {
        let ghost kv = (key@, v@);
        let mut fields: Vec<(String, Val)> = Vec::new();
        fields.push((key, v));
        proof {
            crate::value::lemma_view_fields(fields@);
            assert(crate::value::view_fields(fields@) =~= seq![kv]);
        }
        Some((fields, m + 1))
    } else {
        None
    }
}

/// The characters of `text`, in order.
fn chars_of(text: &str) -> (r: Vec<char>)
    ensures
        r@ == text@,
{
    let n = text.unicode_len();
    let mut out: Vec<char> = Vec::new();
    let mut i: usize = 0;
    while i < n
        invariant
            i <= n,
            n == text@.len(),
            out@ == text@.subrange(0, i as int),
        decreases n - i,
    {
        let c = text.get_char(i);
        out.push(c);
        proof {
            assert(text@.subrange(0, i + 1) =~= text@.subrange(0, i as int).push(c));
        }
        i += 1;
    }
    proof {
        assert(text@.subrange(0, n as int) =~= text@);
    }
    out
}

/// Parses a whole JSON text into its single value: whitespace may stand
/// around the value, nothing else.
pub fn parse_json(text: &str) -> (r: Result<Val, RunError>)
    ensures
        json_parse(text@) matches Some(v) ==> (r matches Ok(val) && val@ == v),
        json_parse(text@) is None ==> (r matches Err(e) && e is Parse),
{
    let s = chars_of(text);
    let i = skip_ws_x(&s, 0);
    let (v, j) = match value_x(&s, i) {
        Some(p) => p,
        None => {
            return Err(RunError::Parse(String::from_str("the text is not valid JSON")));
        },
    };
    let k = skip_ws_x(&s, j);
    if k != s.len() {
        return Err(RunError::Parse(String::from_str("unexpected text after the JSON value")));
    }
    Ok(v)
}

/// Parses the text of a pipeline definition: a JSON array of stage
/// objects. Returns the stages in their original order, or a parse error
/// when the text is not valid JSON, its top level is not an array, or an
/// element is not an object.
pub fn parse_pipeline(text: &str) -> (r: Result<Vec<Val>, RunError>)
    ensures
        pipeline_spec(text@) matches Some(stages) ==> (r matches Ok(p) && view_items(p@)
            == stages),
        pipeline_spec(text@) is None ==> (r matches Err(e) && e is Parse),
{
    let s = chars_of(text);
    let i = skip_ws_x(&s, 0);
    let (v, j) = match value_x(&s, i) {
        Some(p) => p,
        None => {
            return Err(RunError::Parse(String::from_str("the pipeline file is not valid JSON")));
        },
    };
    let k = skip_ws_x(&s, j);
    if k != s.len() {
        return Err(
            RunError::Parse(String::from_str("unexpected text after the pipeline array")),
        );
    }
    proof {
        assert(json_parse(text@) == Some(v@));
    }
    match v {
        Val::Arr(items) => {
            let ghost stages = view_items(items@);
            proof {
                lemma_view_items(items@);
            }
            let mut t: usize = 0;
            while t < items.len()
                invariant
                    t <= items@.len(),
                    stages == view_items(items@),
                    stages.len() == items@.len(),
                    json_parse(text@) == Some(ValS::Arr(stages)),
                    forall|j2: int| 0 <= j2 < t ==> (#[trigger] stages[j2]) is Obj,
                decreases items@.len() - t,
            {
                proof {
                    lemma_view_items(items@);
                }
                let ok = match &items[t] {
                    Val::Obj(_) => true,
                    _ => false,
                };
                if !ok {
                    proof {
                        assert(!((stages[t as int]) is Obj));
                        assert(!all_objects(stages));
                        assert(pipeline_spec(text@) is None);
                    }
                    return Err(
                        RunError::Parse(
                            String::from_str("a pipeline stage is not a JSON object"),
                        ),
                    );
                }
                t += 1;
            }
            proof {
                assert(all_objects(stages));
                assert(pipeline_spec(text@) == Some(stages));
            }
            Ok(items)
        },
        _ => {
            proof {
                assert(pipeline_spec(text@) is None);
            }
            Err(RunError::Parse(String::from_str("the pipeline is not a JSON array")))
        },
    }
}

} // verus!
