//! The JSON value model and an incremental parser over characters.
//!
//! Numbers keep their raw text (the protocol never does arithmetic on them;
//! integer fields are read out where a message needs them), strings are kept
//! with escapes decoded. The parser works on a character buffer and reports
//! the position one past the value it read, so a caller can carve several
//! values out of one buffer and keep an incomplete tail for later; a value
//! that may still grow at the end of the buffer (a number, an unclosed
//! string) is reported as not yet parsable rather than guessed at.

use vstd::prelude::*;

verus! {

broadcast use vstd::std_specs::vec::group_vec_axioms;

/// A JSON value. Object members keep their order and duplicates as written;
/// lookups take the last binding, as the wire protocol's consumers do.
pub enum Json {
    Null,
    Bool(bool),
    Num(String),
    Str(String),
    Arr(Vec<Json>),
    Obj(Vec<(String, Json)>),
}

/// The mathematical content of a `Json` value.
pub enum JsonV {
    Null,
    Bool(bool),
    Num(Seq<char>),
    Str(Seq<char>),
    Arr(Seq<JsonV>),
    Obj(Seq<(Seq<char>, JsonV)>),
}

/// The model of an executable JSON value.
pub open spec fn jmodel(j: Json) -> JsonV
    decreases j,
{
    match j {
        Json::Null => JsonV::Null,
        Json::Bool(b) => JsonV::Bool(b),
        Json::Num(s) => JsonV::Num(s@),
        Json::Str(s) => JsonV::Str(s@),
        Json::Arr(v) => JsonV::Arr(
            Seq::new(
                v@.len(),
                |k: int|
                    if 0 <= k < v@.len() {
                        jmodel(v@[k])
                    } else {
                        JsonV::Null
                    },
            ),
        ),
        Json::Obj(v) => JsonV::Obj(
            Seq::new(
                v@.len(),
                |k: int|
                    if 0 <= k < v@.len() {
                        (v@[k].0@, jmodel(v@[k].1))
                    } else {
                        (Seq::empty(), JsonV::Null)
                    },
            ),
        ),
    }
}

impl View for Json {
    type V = JsonV;

    open spec fn view(&self) -> JsonV {
        jmodel(*self)
    }
}

/// The models of a sequence of executable JSON values, in order.
pub open spec fn jmodels(s: Seq<Json>) -> Seq<JsonV> {
    s.map(|i: int, j: Json| jmodel(j))
}

/// The models of a member list, in order.
pub open spec fn pairs_model(s: Seq<(String, Json)>) -> Seq<(Seq<char>, JsonV)> {
    s.map(|i: int, p: (String, Json)| (p.0@, jmodel(p.1)))
}

/// A value and its model take corresponding variants.
pub proof fn lemma_model_variant(j: Json)
    ensures
        j is Null <==> jmodel(j) is Null,
        j is Bool <==> jmodel(j) is Bool,
        j is Num <==> jmodel(j) is Num,
        j is Str <==> jmodel(j) is Str,
        j is Arr <==> jmodel(j) is Arr,
        j is Obj <==> jmodel(j) is Obj,
{
}

/// The model of an array value is the array of element models.
pub proof fn lemma_arr_model(v: Vec<Json>)
    ensures
        jmodel(Json::Arr(v)) == JsonV::Arr(jmodels(v@)),
{
    let m = jmodel(Json::Arr(v));
    assert(m is Arr);
    assert(m->Arr_0 =~= jmodels(v@));
}

/// The model of an object value is the member list of models.
pub proof fn lemma_obj_model(ms: Vec<(String, Json)>)
    ensures
        jmodel(Json::Obj(ms)) == JsonV::Obj(pairs_model(ms@)),
{
    let m = jmodel(Json::Obj(ms));
    assert(m is Obj);
    assert(m->Obj_0 =~= pairs_model(ms@));
}

/// Structural equality of two JSON values: equal exactly when their models
/// are equal.
#[verifier::loop_isolation(false)]
pub fn json_eq(a: &Json, b: &Json) -> (r: bool)
    ensures
        r == (jmodel(*a) == jmodel(*b)),
    decreases *a,
{
    proof {
        lemma_model_variant(*a);
        lemma_model_variant(*b);
    }
    match (a, b) {
        (Json::Null, Json::Null) => true,
        (Json::Bool(x), Json::Bool(y)) => x == y,
        (Json::Num(x), Json::Num(y)) => crate::util::str_eq(x.as_str(), y.as_str()),
        (Json::Str(x), Json::Str(y)) => crate::util::str_eq(x.as_str(), y.as_str()),
        (Json::Arr(xs), Json::Arr(ys)) => {
            proof {
                lemma_arr_model(*xs);
                lemma_arr_model(*ys);
            }
            if xs.len() != ys.len() {
                proof {
                    assert(jmodels(xs@).len() != jmodels(ys@).len());
                }
                return false;
            }
            let mut i: usize = 0;
            while i < xs.len()
                invariant
                    i <= xs@.len(),
                    xs@.len() == ys@.len(),
                    forall|k: int| 0 <= k < i ==> jmodels(xs@)[k] == jmodels(ys@)[k],
                decreases xs@.len() - i,
            {
                proof {
                    assert(decreases_to!(*a => *xs));
                    assert(decreases_to!(*xs => xs@[i as int]));
                }
                if !json_eq(&xs[i], &ys[i]) {
                    proof {
                        assert(jmodels(xs@)[i as int] != jmodels(ys@)[i as int]);
                    }
                    return false;
                }
                i = i + 1;
            }
            proof {
                assert(jmodels(xs@) =~= jmodels(ys@));
            }
            true
        },
        (Json::Obj(xs), Json::Obj(ys)) => {
            proof {
                lemma_obj_model(*xs);
                lemma_obj_model(*ys);
            }
            if xs.len() != ys.len() {
                proof {
                    assert(pairs_model(xs@).len() != pairs_model(ys@).len());
                }
                return false;
            }
            let mut i: usize = 0;
            while i < xs.len()
                invariant
                    i <= xs@.len(),
                    xs@.len() == ys@.len(),
                    forall|k: int| 0 <= k < i ==> pairs_model(xs@)[k] == pairs_model(ys@)[k],
                decreases xs@.len() - i,
            {
                if !crate::util::str_eq(xs[i].0.as_str(), ys[i].0.as_str()) {
                    proof {
                        assert(pairs_model(xs@)[i as int] != pairs_model(ys@)[i as int]);
                    }
                    return false;
                }
                proof {
                    assert(decreases_to!(*a => *xs));
                    assert(decreases_to!(*xs => xs@[i as int]));
                    assert(decreases_to!(xs@[i as int] => xs@[i as int].1));
                }
                if !json_eq(&xs[i].1, &ys[i].1) {
                    proof {
                        assert(pairs_model(xs@)[i as int] != pairs_model(ys@)[i as int]);
                    }
                    return false;
                }
                i = i + 1;
            }
            proof {
                assert(pairs_model(xs@) =~= pairs_model(ys@));
            }
            true
        },
        _ => false,
    }
}

/// The canonical text of a value: no whitespace between tokens, object
/// members in stored order, strings written with `escape_json`.
pub open spec fn text_of(v: JsonV) -> Seq<char>
    decreases v, 0int,
{
    match v {
        JsonV::Null => "null"@,
        JsonV::Bool(b) => if b {
            "true"@
        } else {
            "false"@
        },
        JsonV::Num(t) => t,
        JsonV::Str(s) => seq!['"'] + crate::util::escape_json(s) + seq!['"'],
        JsonV::Arr(items) => seq!['['] + arr_text_from(items, 0) + seq![']'],
        JsonV::Obj(ms) => seq!['{'] + obj_text_from(ms, 0) + seq!['}'],
    }
}

/// The element texts from position `k` on, comma-separated against what
/// came before.
pub open spec fn arr_text_from(items: Seq<JsonV>, k: int) -> Seq<char>
    decreases items, items.len() - k,
{
    if k < 0 || k >= items.len() {
        Seq::empty()
    } else {
        (if k > 0 {
            seq![',']
        } else {
            Seq::empty()
        }) + text_of(items[k]) + arr_text_from(items, k + 1)
    }
}

/// The member texts from position `k` on, each a quoted escaped key, a
/// colon and the value, comma-separated against what came before.
pub open spec fn obj_text_from(ms: Seq<(Seq<char>, JsonV)>, k: int) -> Seq<char>
    decreases ms, ms.len() - k,
{
    if k < 0 || k >= ms.len() {
        Seq::empty()
    } else {
        (if k > 0 {
            seq![',']
        } else {
            Seq::empty()
        }) + seq!['"'] + crate::util::escape_json(ms[k].0) + seq!['"', ':'] + text_of(ms[k].1)
            + obj_text_from(ms, k + 1)
    }
}

/// Writes a value as text, exactly as `text_of` describes.
#[verifier::loop_isolation(false)]
pub fn to_text(v: &Json) -> (r: String)
    ensures
        r@ == text_of(jmodel(*v)),
    decreases *v,
{
    match v {
        Json::Null => String::from_str("null"),
        Json::Bool(b) => if *b {
            String::from_str("true")
        } else {
            String::from_str("false")
        },
        Json::Num(t) => t.clone(),
        Json::Str(s) => {
            let mut out = String::new();
            crate::util::push_char(&mut out, '"');
            crate::util::push_json_escaped(&mut out, s.as_str());
            crate::util::push_char(&mut out, '"');
            proof {
                assert(out@ =~= text_of(jmodel(*v)));
            }
            out
        },
        Json::Arr(items) => {
            proof {
                lemma_arr_model(*items);
            }
            let ghost model = jmodels(items@);
            let mut out = String::new();
            crate::util::push_char(&mut out, '[');
            let mut i: usize = 0;
            proof {
                assert(out@ + arr_text_from(model, 0) =~= seq!['['] + arr_text_from(model, 0));
            }
            while i < items.len()
                invariant
                    i <= items@.len(),
                    model == jmodels(items@),
                    out@ + arr_text_from(model, i as int) == seq!['['] + arr_text_from(model, 0),
                decreases items@.len() - i,
            {
                if i > 0 {
                    crate::util::push_char(&mut out, ',');
                }
                proof {
                    assert(decreases_to!(*v => *items));
                    assert(decreases_to!(*items => items@[i as int]));
                }
                let t = to_text(&items[i]);
                out.append(t.as_str());
                proof {
                    assert(model[i as int] == jmodel(items@[i as int]));
                }
                i = i + 1;
            }
            crate::util::push_char(&mut out, ']');
            proof {
                assert(arr_text_from(model, items@.len() as int) =~= Seq::<char>::empty());
                assert(out@ =~= text_of(jmodel(*v)));
            }
            out
        },
        Json::Obj(ms) => {
            proof {
                lemma_obj_model(*ms);
            }
            let ghost model = pairs_model(ms@);
            let mut out = String::new();
            crate::util::push_char(&mut out, '{');
            let mut i: usize = 0;
            proof {
                assert(out@ + obj_text_from(model, 0) =~= seq!['{'] + obj_text_from(model, 0));
            }
            while i < ms.len()
                invariant
                    i <= ms@.len(),
                    model == pairs_model(ms@),
                    out@ + obj_text_from(model, i as int) == seq!['{'] + obj_text_from(model, 0),
                decreases ms@.len() - i,
            {
                if i > 0 {
                    crate::util::push_char(&mut out, ',');
                }
                crate::util::push_char(&mut out, '"');
                crate::util::push_json_escaped(&mut out, ms[i].0.as_str());
                crate::util::push_char(&mut out, '"');
                crate::util::push_char(&mut out, ':');
                proof {
                    assert(decreases_to!(*v => *ms));
                    assert(decreases_to!(*ms => ms@[i as int]));
                    assert(decreases_to!(ms@[i as int] => ms@[i as int].1));
                }
                let t = to_text(&ms[i].1);
                out.append(t.as_str());
                proof {
                    assert(model[i as int] == (ms@[i as int].0@, jmodel(ms@[i as int].1)));
                }
                i = i + 1;
            }
            crate::util::push_char(&mut out, '}');
            proof {
                assert(obj_text_from(model, ms@.len() as int) =~= Seq::<char>::empty());
                assert(out@ =~= text_of(jmodel(*v)));
            }
            out
        },
    }
}

/// JSON whitespace.
pub open spec fn is_ws(c: char) -> bool {
    c == ' ' || c == '\n' || c == '\r' || c == '\t'
}

/// A decimal digit.
pub open spec fn is_digit(c: char) -> bool {
    '0' <= c && c <= '9'
}

/// A character that can appear in a number token.
pub open spec fn is_num_char(c: char) -> bool {
    is_digit(c) || c == '-' || c == '+' || c == '.' || c == 'e' || c == 'E'
}

/// A hexadecimal digit.
pub open spec fn is_hex(c: char) -> bool {
    is_digit(c) || ('a' <= c && c <= 'f') || ('A' <= c && c <= 'F')
}

/// The value of a hexadecimal digit.
pub open spec fn hex_val(c: char) -> int {
    if is_digit(c) {
        c as int - '0' as int
    } else if 'a' <= c && c <= 'f' {
        c as int - 'a' as int + 10
    } else {
        c as int - 'A' as int + 10
    }
}

/// The first position at or after `i` holding no whitespace.
pub open spec fn skip_ws(s: Seq<char>, i: int) -> int
    decreases s.len() - i,
{
    if 0 <= i < s.len() && is_ws(s[i]) {
        skip_ws(s, i + 1)
    } else {
        i
    }
}

/// The end of the maximal run of number characters at `i`.
pub open spec fn num_end(s: Seq<char>, i: int) -> int
    decreases s.len() - i,
{
    if 0 <= i < s.len() && is_num_char(s[i]) {
        num_end(s, i + 1)
    } else {
        i
    }
}

/// One step of the JSON number grammar's state machine. States: sign seen,
/// a lone zero, an integer digit run, a fraction point, fraction digits, an
/// exponent mark, its sign, exponent digits; any other input rejects.
pub open spec fn num_state(st: int, c: char) -> int {
    if st == 0 {
        if c == '-' {
            1
        } else if c == '0' {
            2
        } else if is_digit(c) {
            3
        } else {
            -1
        }
    } else if st == 1 {
        if c == '0' {
            2
        } else if is_digit(c) {
            3
        } else {
            -1
        }
    } else if st == 2 {
        if c == '.' {
            4
        } else if c == 'e' || c == 'E' {
            6
        } else {
            -1
        }
    } else if st == 3 {
        if is_digit(c) {
            3
        } else if c == '.' {
            4
        } else if c == 'e' || c == 'E' {
            6
        } else {
            -1
        }
    } else if st == 4 {
        if is_digit(c) {
            5
        } else {
            -1
        }
    } else if st == 5 {
        if is_digit(c) {
            5
        } else if c == 'e' || c == 'E' {
            6
        } else {
            -1
        }
    } else if st == 6 {
        if c == '+' || c == '-' {
            7
        } else if is_digit(c) {
            8
        } else {
            -1
        }
    } else if st == 7 {
        if is_digit(c) {
            8
        } else {
            -1
        }
    } else if st == 8 {
        if is_digit(c) {
            8
        } else {
            -1
        }
    } else {
        -1
    }
}

/// The number state machine run over a token.
pub open spec fn num_run(st: int, t: Seq<char>) -> int
    decreases t.len(),
{
    if t.len() == 0 {
        st
    } else {
        num_run(num_state(st, t[0]), t.subrange(1, t.len() as int))
    }
}

/// The token is a well-formed JSON number.
pub open spec fn num_accept(t: Seq<char>) -> bool {
    let f = num_run(0, t);
    f == 2 || f == 3 || f == 5 || f == 8
}

/// A position one past a sub-parse, clamped so it strictly advances and
/// stays inside the buffer; the parser's results always lie in that range,
/// so the clamp changes nothing (it keeps the definitions well-founded).
pub open spec fn step_to(lo: int, j: int, n: int) -> int {
    if j <= lo {
        lo + 1
    } else if j > n {
        n
    } else {
        j
    }
}

/// Parses one JSON value whose first character stands at `i`: a literal,
/// a number, a string, an array or an object, yielding the value and the
/// position one past it. A value that may still grow at the end of the
/// buffer is not yet a value: a number ending at the buffer's edge, or an
/// unclosed string, array or object, parses as `None` until more input
/// arrives.
pub open spec fn parse_value(s: Seq<char>, i: int) -> Option<(JsonV, int)>
    decreases s.len() - i, 1int,
{
    if i < 0 || i >= s.len() {
        None
    } else {
        let c = s[i];
        if c == 'n' {
            if i + 4 <= s.len() && s[i + 1] == 'u' && s[i + 2] == 'l' && s[i + 3] == 'l' {
                Some((JsonV::Null, i + 4))
            } else {
                None
            }
        } else if c == 't' {
            if i + 4 <= s.len() && s[i + 1] == 'r' && s[i + 2] == 'u' && s[i + 3] == 'e' {
                Some((JsonV::Bool(true), i + 4))
            } else {
                None
            }
        } else if c == 'f' {
            if i + 5 <= s.len() && s[i + 1] == 'a' && s[i + 2] == 'l' && s[i + 3] == 's' && s[i
                + 4] == 'e' {
                Some((JsonV::Bool(false), i + 5))
            } else {
                None
            }
        } else if c == '"' {
            match parse_string_body(s, i + 1, Seq::empty()) {
                Some((content, j)) => Some((JsonV::Str(content), j)),
                None => None,
            }
        } else if c == '-' || is_digit(c) {
            parse_number(s, i)
        } else if c == '[' {
            match parse_arr_tail(s, i + 1, Seq::empty()) {
                Some((elems, j)) => Some((JsonV::Arr(elems), j)),
                None => None,
            }
        } else if c == '{' {
            match parse_obj_tail(s, i + 1, Seq::empty()) {
                Some((ms, j)) => Some((JsonV::Obj(ms), j)),
                None => None,
            }
        } else {
            None
        }
    }
}

/// Parses a number token at `i`. The token is the maximal run of number
/// characters; one that touches the buffer's end could still grow, so it
/// does not parse yet.
pub open spec fn parse_number(s: Seq<char>, i: int) -> Option<(JsonV, int)> {
    let e = num_end(s, i);
    if e >= s.len() {
        None
    } else if num_accept(s.subrange(i, e)) {
        Some((JsonV::Num(s.subrange(i, e)), e))
    } else {
        None
    }
}

/// Parses the remainder of a string literal from `i` (just past the opening
/// quote or the last consumed character), with `acc` the content decoded so
/// far: plain characters, the named escapes, and four-digit escapes with
/// surrogate pairs combined.
pub open spec fn parse_string_body(s: Seq<char>, i: int, acc: Seq<char>) -> Option<
    (Seq<char>, int),
>
    decreases s.len() - i,
{
    if i < 0 || i >= s.len() {
        None
    } else {
        let c = s[i];
        if c == '"' {
            Some((acc, i + 1))
        } else if c == '\\' {
            if i + 1 >= s.len() {
                None
            } else {
                let e = s[i + 1];
                if e == '"' {
                    parse_string_body(s, i + 2, acc.push('"'))
                } else if e == '\\' {
                    parse_string_body(s, i + 2, acc.push('\\'))
                } else if e == '/' {
                    parse_string_body(s, i + 2, acc.push('/'))
                } else if e == 'b' {
                    parse_string_body(s, i + 2, acc.push(8u32 as char))
                } else if e == 'f' {
                    parse_string_body(s, i + 2, acc.push(12u32 as char))
                } else if e == 'n' {
                    parse_string_body(s, i + 2, acc.push('\n'))
                } else if e == 'r' {
                    parse_string_body(s, i + 2, acc.push('\r'))
                } else if e == 't' {
                    parse_string_body(s, i + 2, acc.push('\t'))
                } else if e == 'u' {
                    if i + 6 > s.len() {
                        None
                    } else if !(is_hex(s[i + 2]) && is_hex(s[i + 3]) && is_hex(s[i + 4]) && is_hex(
                        s[i + 5],
                    )) {
                        None
                    } else {
                        let cp = hex_val(s[i + 2]) * 4096 + hex_val(s[i + 3]) * 256 + hex_val(
                            s[i + 4],
                        ) * 16 + hex_val(s[i + 5]);
                        if 0xD800 <= cp < 0xDC00 {
                            if i + 12 > s.len() {
                                None
                            } else if s[i + 6] == '\\' && s[i + 7] == 'u' && is_hex(s[i + 8])
                                && is_hex(s[i + 9]) && is_hex(s[i + 10]) && is_hex(s[i + 11]) {
                                let lo = hex_val(s[i + 8]) * 4096 + hex_val(s[i + 9]) * 256
                                    + hex_val(s[i + 10]) * 16 + hex_val(s[i + 11]);
                                if 0xDC00 <= lo < 0xE000 {
                                    let combined = 0x10000 + (cp - 0xD800) * 0x400 + (lo - 0xDC00);
                                    parse_string_body(s, i + 12, acc.push(combined as u32 as char))
                                } else {
                                    None
                                }
                            } else {
                                None
                            }
                        } else if 0xDC00 <= cp < 0xE000 {
                            None
                        } else {
                            parse_string_body(s, i + 6, acc.push(cp as u32 as char))
                        }
                    }
                } else {
                    None
                }
            }
        } else if (c as u32) < 32 {
            None
        } else {
            parse_string_body(s, i + 1, acc.push(c))
        }
    }
}

/// Parses array elements from `k` (just past `[`, or past a comma):
/// whitespace passes, `]` closes an empty array, and otherwise an element
/// is required, followed by its separator.
pub open spec fn parse_arr_tail(s: Seq<char>, k: int, acc: Seq<JsonV>) -> Option<
    (Seq<JsonV>, int),
>
    decreases s.len() - k, 2int,
{
    if k < 0 || k >= s.len() {
        None
    } else if is_ws(s[k]) {
        parse_arr_tail(s, k + 1, acc)
    } else if s[k] == ']' && acc.len() == 0 {
        Some((acc, k + 1))
    } else {
        match parse_value(s, k) {
            None => None,
            Some((v, j)) => parse_arr_sep(s, step_to(k, j, s.len() as int), acc.push(v)),
        }
    }
}

/// Parses what follows an array element: whitespace passes, `]` closes the
/// array, a comma demands another element.
pub open spec fn parse_arr_sep(s: Seq<char>, m: int, acc: Seq<JsonV>) -> Option<
    (Seq<JsonV>, int),
>
    decreases s.len() - m, 2int,
{
    if m < 0 || m >= s.len() {
        None
    } else if is_ws(s[m]) {
        parse_arr_sep(s, m + 1, acc)
    } else if s[m] == ']' {
        Some((acc, m + 1))
    } else if s[m] == ',' {
        parse_arr_tail(s, m + 1, acc)
    } else {
        None
    }
}

/// Parses object members from `k` (just past `{`, or past a comma):
/// whitespace passes, `}` closes an empty object, and otherwise a string
/// key is required.
pub open spec fn parse_obj_tail(s: Seq<char>, k: int, acc: Seq<(Seq<char>, JsonV)>) -> Option<
    (Seq<(Seq<char>, JsonV)>, int),
>
    decreases s.len() - k, 2int,
{
    if k < 0 || k >= s.len() {
        None
    } else if is_ws(s[k]) {
        parse_obj_tail(s, k + 1, acc)
    } else if s[k] == '}' && acc.len() == 0 {
        Some((acc, k + 1))
    } else if s[k] == '"' {
        match parse_string_body(s, k + 1, Seq::empty()) {
            None => None,
            Some((key, j)) => parse_colon(s, step_to(k, j, s.len() as int), key, acc),
        }
    } else {
        None
    }
}

/// Parses the colon between a member's key and value.
pub open spec fn parse_colon(s: Seq<char>, m: int, key: Seq<char>, acc: Seq<(Seq<char>, JsonV)>) -> Option<
    (Seq<(Seq<char>, JsonV)>, int),
>
    decreases s.len() - m, 2int,
{
    if m < 0 || m >= s.len() {
        None
    } else if is_ws(s[m]) {
        parse_colon(s, m + 1, key, acc)
    } else if s[m] == ':' {
        parse_member_val(s, m + 1, key, acc)
    } else {
        None
    }
}

/// Parses a member's value after its colon.
pub open spec fn parse_member_val(
    s: Seq<char>,
    p: int,
    key: Seq<char>,
    acc: Seq<(Seq<char>, JsonV)>,
) -> Option<(Seq<(Seq<char>, JsonV)>, int)>
    decreases s.len() - p, 2int,
{
    if p < 0 || p >= s.len() {
        None
    } else if is_ws(s[p]) {
        parse_member_val(s, p + 1, key, acc)
    } else {
        match parse_value(s, p) {
            None => None,
            Some((v, j)) => parse_obj_sep(s, step_to(p, j, s.len() as int), acc.push((key, v))),
        }
    }
}

/// Parses what follows an object member: whitespace passes, `}` closes the
/// object, a comma demands another member.
pub open spec fn parse_obj_sep(s: Seq<char>, m: int, acc: Seq<(Seq<char>, JsonV)>) -> Option<
    (Seq<(Seq<char>, JsonV)>, int),
>
    decreases s.len() - m, 2int,
{
    if m < 0 || m >= s.len() {
        None
    } else if is_ws(s[m]) {
        parse_obj_sep(s, m + 1, acc)
    } else if s[m] == '}' {
        Some((acc, m + 1))
    } else if s[m] == ',' {
        parse_obj_tail(s, m + 1, acc)
    } else {
        None
    }
}

/// Whether a character is JSON whitespace.
pub fn json_ws(c: char) -> (r: bool)
    ensures
        r == is_ws(c),
{
    c == ' ' || c == '\n' || c == '\r' || c == '\t'
}

fn digit_test(c: char) -> (r: bool)
    ensures
        r == is_digit(c),
{
    '0' <= c && c <= '9'
}

fn num_char_test(c: char) -> (r: bool)
    ensures
        r == is_num_char(c),
{
    digit_test(c) || c == '-' || c == '+' || c == '.' || c == 'e' || c == 'E'
}

fn hex_test(c: char) -> (r: bool)
    ensures
        r == is_hex(c),
{
    digit_test(c) || ('a' <= c && c <= 'f') || ('A' <= c && c <= 'F')
}

fn hex_value(c: char) -> (r: u32)
    requires
        is_hex(c),
    ensures
        r == hex_val(c),
        r < 16,
{
    if '0' <= c && c <= '9' {
        (c as u32) - ('0' as u32)
    } else if 'a' <= c && c <= 'f' {
        (c as u32) - ('a' as u32) + 10
    } else {
        (c as u32) - ('A' as u32) + 10
    }
}

fn num_state_step(st: i32, c: char) -> (r: i32)
    requires
        -1 <= st <= 8,
    ensures
        r == num_state(st as int, c),
        -1 <= r <= 8,
{
    if st == 0 {
        if c == '-' {
            1
        } else if c == '0' {
            2
        } else if digit_test(c) {
            3
        } else {
            -1
        }
    } else if st == 1 {
        if c == '0' {
            2
        } else if digit_test(c) {
            3
        } else {
            -1
        }
    } else if st == 2 {
        if c == '.' {
            4
        } else if c == 'e' || c == 'E' {
            6
        } else {
            -1
        }
    } else if st == 3 {
        if digit_test(c) {
            3
        } else if c == '.' {
            4
        } else if c == 'e' || c == 'E' {
            6
        } else {
            -1
        }
    } else if st == 4 {
        if digit_test(c) {
            5
        } else {
            -1
        }
    } else if st == 5 {
        if digit_test(c) {
            5
        } else if c == 'e' || c == 'E' {
            6
        } else {
            -1
        }
    } else if st == 6 {
        if c == '+' || c == '-' {
            7
        } else if digit_test(c) {
            8
        } else {
            -1
        }
    } else if st == 7 {
        if digit_test(c) {
            8
        } else {
            -1
        }
    } else if st == 8 {
        if digit_test(c) {
            8
        } else {
            -1
        }
    } else {
        -1
    }
}

/// Reads a number token at `i`, exactly as `parse_number` describes.
#[verifier::loop_isolation(false)]
fn parse_number_at(s: &Vec<char>, i: usize) -> (r: Option<(String, usize)>)
    requires
        i < s@.len(),
        s@[i as int] == '-' || is_digit(s@[i as int]),
    ensures
        match r {
            Some((t, j)) => parse_number(s@, i as int) == Some((JsonV::Num(t@), j as int)) && i < j
                <= s@.len(),
            None => parse_number(s@, i as int) is None,
        },
{
    let mut cur: usize = i;
    let mut token = String::new();
    while cur < s.len() && num_char_test(s[cur])
        invariant
            i <= cur <= s@.len(),
            num_end(s@, i as int) == num_end(s@, cur as int),
            token@ == s@.subrange(i as int, cur as int),
        decreases s@.len() - cur,
    {
        let ghost pre = token@;
        crate::util::push_char(&mut token, s[cur]);
        proof {
            assert(token@ =~= s@.subrange(i as int, cur + 1));
        }
        cur = cur + 1;
    }
    assert(num_end(s@, cur as int) == cur);
    if cur >= s.len() {
        return None;
    }
    let ghost tok = s@.subrange(i as int, cur as int);
    let mut st: i32 = 0;
    let mut k: usize = i;
    proof {
        assert(tok.subrange(0, tok.len() as int) =~= tok);
        assert(tok.subrange(k - i, tok.len() as int) =~= tok);
    }
    while k < cur
        invariant
            i <= k <= cur,
            -1 <= st <= 8,
            num_run(0, tok) == num_run(st as int, tok.subrange(k - i, tok.len() as int)),
        decreases cur - k,
    {
        let ghost rem = tok.subrange(k - i, tok.len() as int);
        proof {
            assert(rem[0] == s@[k as int]);
            assert(rem.subrange(1, rem.len() as int) =~= tok.subrange(
                k + 1 - i,
                tok.len() as int,
            ));
        }
        st = num_state_step(st, s[k]);
        k = k + 1;
    }
    proof {
        assert(tok.subrange(k - i, tok.len() as int) =~= Seq::<char>::empty());
    }
    if st == 2 || st == 3 || st == 5 || st == 8 {
        Some((token, cur))
    } else {
        None
    }
}

/// Reads a string literal's remainder from just past its opening quote,
/// exactly as `parse_string_body` describes.
#[verifier::loop_isolation(false)]
fn parse_string_at(s: &Vec<char>, i: usize) -> (r: Option<(String, usize)>)
    requires
        i <= s@.len(),
    ensures
        match r {
            Some((t, j)) => parse_string_body(s@, i as int, Seq::empty()) == Some((t@, j as int))
                && i < j <= s@.len(),
            None => parse_string_body(s@, i as int, Seq::empty()) is None,
        },
{
    let mut cur: usize = i;
    let mut out = String::new();
    loop
        invariant
            i <= cur <= s@.len(),
            parse_string_body(s@, i as int, Seq::empty()) == parse_string_body(
                s@,
                cur as int,
                out@,
            ),
        decreases s@.len() - cur,
    {
        if cur >= s.len() {
            return None;
        }
        let c = s[cur];
        if c == '"' {
            return Some((out, cur + 1));
        } else if c == '\\' {
            if cur + 1 >= s.len() {
                return None;
            }
            let e = s[cur + 1];
            if e == '"' {
                crate::util::push_char(&mut out, '"');
                cur = cur + 2;
            } else if e == '\\' {
                crate::util::push_char(&mut out, '\\');
                cur = cur + 2;
            } else if e == '/' {
                crate::util::push_char(&mut out, '/');
                cur = cur + 2;
            } else if e == 'b' {
                let ch = match crate::util::char_of_u32(8) {
                    Some(ch) => ch,
                    None => {
                        proof {
                            assert(false);
                        }
                        ' '
                    },
                };
                crate::util::push_char(&mut out, ch);
                cur = cur + 2;
            } else if e == 'f' {
                let ch = match crate::util::char_of_u32(12) {
                    Some(ch) => ch,
                    None => {
                        proof {
                            assert(false);
                        }
                        ' '
                    },
                };
                crate::util::push_char(&mut out, ch);
                cur = cur + 2;
            } else if e == 'n' {
                crate::util::push_char(&mut out, '\n');
                cur = cur + 2;
            } else if e == 'r' {
                crate::util::push_char(&mut out, '\r');
                cur = cur + 2;
            } else if e == 't' {
                crate::util::push_char(&mut out, '\t');
                cur = cur + 2;
            } else if e == 'u' {
                if s.len() - cur < 6 {
                    return None;
                }
                if !(hex_test(s[cur + 2]) && hex_test(s[cur + 3]) && hex_test(s[cur + 4])
                    && hex_test(s[cur + 5])) {
                    return None;
                }
                let cp: u32 = hex_value(s[cur + 2]) * 4096 + hex_value(s[cur + 3]) * 256
                    + hex_value(s[cur + 4]) * 16 + hex_value(s[cur + 5]);
                if 0xD800 <= cp && cp < 0xDC00 {
                    if s.len() - cur < 12 {
                        return None;
                    }
                    if !(s[cur + 6] == '\\' && s[cur + 7] == 'u' && hex_test(s[cur + 8])
                        && hex_test(s[cur + 9]) && hex_test(s[cur + 10]) && hex_test(
                        s[cur + 11],
                    )) {
                        return None;
                    }
                    let lo: u32 = hex_value(s[cur + 8]) * 4096 + hex_value(s[cur + 9]) * 256
                        + hex_value(s[cur + 10]) * 16 + hex_value(s[cur + 11]);
                    if !(0xDC00 <= lo && lo < 0xE000) {
                        return None;
                    }
                    let combined: u32 = 0x10000 + (cp - 0xD800) * 0x400 + (lo - 0xDC00);
                    let ch = match crate::util::char_of_u32(combined) {
                        Some(ch) => ch,
                        None => {
                            proof {
                                assert(false);
                            }
                            ' '
                        },
                    };
                    crate::util::push_char(&mut out, ch);
                    cur = cur + 12;
                } else if 0xDC00 <= cp && cp < 0xE000 {
                    return None;
                } else {
                    let ch = match crate::util::char_of_u32(cp) {
                        Some(ch) => ch,
                        None => {
                            proof {
                                assert(false);
                            }
                            ' '
                        },
                    };
                    crate::util::push_char(&mut out, ch);
                    cur = cur + 6;
                }
            } else {
                return None;
            }
        } else if (c as u32) < 32 {
            return None;
        } else {
            crate::util::push_char(&mut out, c);
            cur = cur + 1;
        }
    }
}

/// Parses one JSON value whose first character stands at `i`, exactly as
/// `parse_value` describes.
#[verifier::loop_isolation(false)]
pub fn parse_value_at(s: &Vec<char>, i: usize) -> (r: Option<(Json, usize)>)
    ensures
        match r {
            Some((v, j)) => parse_value(s@, i as int) == Some((jmodel(v), j as int)) && i < j
                <= s@.len(),
            None => parse_value(s@, i as int) is None,
        },
    decreases s@.len() - i,
{
    if i >= s.len() {
        return None;
    }
    let c = s[i];
    if c == 'n' {
        if s.len() - i >= 4 && s[i + 1] == 'u' && s[i + 2] == 'l' && s[i + 3] == 'l' {
            Some((Json::Null, i + 4))
        } else {
            None
        }
    } else if c == 't' {
        if s.len() - i >= 4 && s[i + 1] == 'r' && s[i + 2] == 'u' && s[i + 3] == 'e' {
            Some((Json::Bool(true), i + 4))
        } else {
            None
        }
    } else if c == 'f' {
        if s.len() - i >= 5 && s[i + 1] == 'a' && s[i + 2] == 'l' && s[i + 3] == 's' && s[i + 4]
            == 'e' {
            Some((Json::Bool(false), i + 5))
        } else {
            None
        }
    } else if c == '"' {
        match parse_string_at(s, i + 1) {
            Some((t, j)) => Some((Json::Str(t), j)),
            None => None,
        }
    } else if c == '-' || digit_test(c) {
        match parse_number_at(s, i) {
            Some((t, j)) => Some((Json::Num(t), j)),
            None => None,
        }
    } else if c == '[' {
        let ghost n = s@.len() as int;
        let mut cur: usize = i + 1;
        let mut items: Vec<Json> = Vec::new();
        proof {
            assert(jmodels(items@) =~= Seq::<JsonV>::empty());
        }
        loop
            invariant
                i + 1 <= cur,
                parse_value(s@, i as int) == (match parse_arr_tail(s@, cur as int, jmodels(
                    items@,
                )) {
                    Some((elems, j)) => Some((JsonV::Arr(elems), j)),
                    None => None::<(JsonV, int)>,
                }),
            decreases s@.len() - cur, 1int,
        {
            let ghost cur0 = cur as int;
            if cur >= s.len() {
                return None;
            }
            let cc = s[cur];
            if json_ws(cc) {
                cur = cur + 1;
            } else if cc == ']' && items.len() == 0 {
                proof {
                    assert(jmodels(items@) =~= Seq::<JsonV>::empty());
                    lemma_arr_model(items);
                }
                return Some((Json::Arr(items), cur + 1));
            } else {
                match parse_value_at(s, cur) {
                    None => {
                        return None;
                    },
                    Some((v, j)) => {
                        let ghost pre = jmodels(items@);
                        proof {
                            assert(step_to(cur as int, j as int, n) == j);
                        }
                        items.push(v);
                        proof {
                            assert(jmodels(items@) =~= pre.push(jmodel(v)));
                        }
                        cur = j;
                        // the separator after the element
                        loop
                            invariant
                                i + 1 <= cur,
                                cur0 < cur,
                                parse_value(s@, i as int) == (match parse_arr_sep(
                                    s@,
                                    cur as int,
                                    jmodels(items@),
                                ) {
                                    Some((elems, jj)) => Some((JsonV::Arr(elems), jj)),
                                    None => None::<(JsonV, int)>,
                                }),
                            decreases s@.len() - cur, 0int,
                        {
                            if cur >= s.len() {
                                return None;
                            }
                            let sc = s[cur];
                            if json_ws(sc) {
                                cur = cur + 1;
                            } else if sc == ']' {
                                proof {
                                    lemma_arr_model(items);
                                }
                                return Some((Json::Arr(items), cur + 1));
                            } else if sc == ',' {
                                cur = cur + 1;
                                break ;
                            } else {
                                return None;
                            }
                        }
                    },
                }
            }
        }
    } else if c == '{' {
        let ghost n = s@.len() as int;
        let mut cur: usize = i + 1;
        let mut members: Vec<(String, Json)> = Vec::new();
        proof {
            assert(pairs_model(members@) =~= Seq::<(Seq<char>, JsonV)>::empty());
        }
        loop
            invariant
                i + 1 <= cur,
                parse_value(s@, i as int) == (match parse_obj_tail(s@, cur as int, pairs_model(
                    members@,
                )) {
                    Some((ms, j)) => Some((JsonV::Obj(ms), j)),
                    None => None::<(JsonV, int)>,
                }),
            decreases s@.len() - cur, 1int,
        {
            let ghost cur0 = cur as int;
            if cur >= s.len() {
                return None;
            }
            let cc = s[cur];
            if json_ws(cc) {
                cur = cur + 1;
            } else if cc == '}' && members.len() == 0 {
                proof {
                    assert(pairs_model(members@) =~= Seq::<(Seq<char>, JsonV)>::empty());
                    lemma_obj_model(members);
                }
                return Some((Json::Obj(members), cur + 1));
            } else if cc == '"' {
                let (key, kj) = match parse_string_at(s, cur + 1) {
                    None => {
                        return None;
                    },
                    Some(kv) => kv,
                };
                proof {
                    assert(step_to(cur as int, kj as int, n) == kj);
                }
                let mut mid: usize = kj;
                // the colon between key and value
                loop
                    invariant
                        cur0 < mid,
                        cur < mid,
                        parse_value(s@, i as int) == (match parse_colon(s@, mid as int, key@,
                            pairs_model(members@)) {
                            Some((ms, j)) => Some((JsonV::Obj(ms), j)),
                            None => None::<(JsonV, int)>,
                        }),
                    decreases s@.len() - mid,
                {
                    if mid >= s.len() {
                        return None;
                    }
                    let mc = s[mid];
                    if json_ws(mc) {
                        mid = mid + 1;
                    } else if mc == ':' {
                        mid = mid + 1;
                        break ;
                    } else {
                        return None;
                    }
                }
                // the member's value
                loop
                    invariant
                        cur0 < mid,
                        cur < mid,
                        parse_value(s@, i as int) == (match parse_member_val(s@, mid as int,
                            key@, pairs_model(members@)) {
                            Some((ms, j)) => Some((JsonV::Obj(ms), j)),
                            None => None::<(JsonV, int)>,
                        }),
                    decreases s@.len() - mid,
                {
                    if mid >= s.len() {
                        return None;
                    }
                    let pc = s[mid];
                    if json_ws(pc) {
                        mid = mid + 1;
                    } else {
                        break ;
                    }
                }
                match parse_value_at(s, mid) {
                    None => {
                        return None;
                    },
                    Some((v, j)) => {
                        let ghost pre = pairs_model(members@);
                        proof {
                            assert(step_to(mid as int, j as int, n) == j);
                        }
                        let ghost keyv = key@;
                        members.push((key, v));
                        proof {
                            assert(pairs_model(members@) =~= pre.push((keyv, jmodel(v))));
                        }
                        cur = j;
                        // the separator after the member
                        loop
                            invariant
                                i + 1 <= cur,
                                cur0 < cur,
                                parse_value(s@, i as int) == (match parse_obj_sep(
                                    s@,
                                    cur as int,
                                    pairs_model(members@),
                                ) {
                                    Some((ms, jj)) => Some((JsonV::Obj(ms), jj)),
                                    None => None::<(JsonV, int)>,
                                }),
                            decreases s@.len() - cur, 0int,
                        {
                            if cur >= s.len() {
                                return None;
                            }
                            let sc = s[cur];
                            if json_ws(sc) {
                                cur = cur + 1;
                            } else if sc == '}' {
                                proof {
                                    lemma_obj_model(members);
                                }
                                return Some((Json::Obj(members), cur + 1));
                            } else if sc == ',' {
                                cur = cur + 1;
                                break ;
                            } else {
                                return None;
                            }
                        }
                    },
                }
            } else {
                return None;
            }
        }
    } else {
        None
    }
}

} // verus!
