//! The serializer and the parser agree: a well-formed value written by
//! `text_of` parses back as exactly that value, consuming exactly its text.
//! Together with the framing laws this closes the loop: values written back
//! to back and cut anywhere come out of the framer as themselves.

use vstd::prelude::*;
use crate::json::{
    arr_text_from,
    hex_val,
    is_digit,
    is_hex,
    is_num_char,
    is_ws,
    num_accept,
    num_end,
    num_run,
    num_state,
    obj_text_from,
    parse_arr_sep,
    parse_arr_tail,
    parse_colon,
    parse_member_val,
    parse_number,
    parse_obj_sep,
    parse_obj_tail,
    parse_string_body,
    parse_value,
    step_to,
    text_of,
    JsonV,
};
use crate::util::{escape_char, escape_json, hex_char};

verus! {

/// A value the serializer can commit to paper soundly: number texts satisfy
/// the number grammar, recursively.
pub open spec fn wf_value(v: JsonV) -> bool
    decreases v, 0int,
{
    match v {
        JsonV::Null => true,
        JsonV::Bool(b) => true,
        JsonV::Num(t) => num_accept(t),
        JsonV::Str(s) => true,
        JsonV::Arr(items) => wf_elems(items, 0),
        JsonV::Obj(ms) => wf_members(ms, 0),
    }
}

/// Every element from `k` on is well formed.
pub open spec fn wf_elems(items: Seq<JsonV>, k: int) -> bool
    decreases items, items.len() - k,
{
    if k < 0 || k >= items.len() {
        true
    } else {
        wf_value(items[k]) && wf_elems(items, k + 1)
    }
}

/// Every member value from `k` on is well formed.
pub open spec fn wf_members(ms: Seq<(Seq<char>, JsonV)>, k: int) -> bool
    decreases ms, ms.len() - k,
{
    if k < 0 || k >= ms.len() {
        true
    } else {
        wf_value(ms[k].1) && wf_members(ms, k + 1)
    }
}

/// The hex digit characters written by the escaper read back as their value.
proof fn lemma_hex_char_val(d: int)
    requires
        0 <= d < 16,
    ensures
        is_hex(hex_char(d)),
        hex_val(hex_char(d)) == d,
{
}

/// An escaped string body followed by a closing quote parses back to the
/// original content.
proof fn lemma_parse_escaped(s: Seq<char>, i: int, content: Seq<char>, acc: Seq<char>)
    requires
        0 <= i,
        i + escape_json(content).len() + 1 <= s.len(),
        s.subrange(i, i + escape_json(content).len() as int) == escape_json(content),
        s[i + escape_json(content).len() as int] == '"',
    ensures
        parse_string_body(s, i, acc) == Some(
            (acc + content, i + escape_json(content).len() + 1),
        ),
    decreases content.len(),
{
    let ej = escape_json(content);
    if content.len() == 0 {
        assert(acc + content =~= acc);
    } else {
        let c = content[0];
        let e = escape_char(c);
        let rest = content.subrange(1, content.len() as int);
        let ejr = escape_json(rest);
        assert(ej == e + ejr);
        assert forall|k: int| 0 <= k < ej.len() implies #[trigger] ej[k] == s[i + k] by {
            assert(s.subrange(i, i + ej.len() as int)[k] == s[i + k]);
        }
        assert forall|k: int|
            0 <= k < ejr.len() implies s.subrange(
                i + e.len() as int,
                i + e.len() + ejr.len() as int,
            )[k] == ejr[k] by {
            assert(ej[e.len() + k] == s[i + e.len() + k]);
            assert(ej[e.len() + k] == ejr[k]);
        }
        assert(s.subrange(i + e.len() as int, i + e.len() + ejr.len() as int) =~= ejr);
        assert(s[i + e.len() + ejr.len() as int] == '"');
        assert forall|k: int| 0 <= k < e.len() implies #[trigger] e[k] == s[i + k] by {
            assert(ej[k] == s[i + k]);
            assert((e + ejr)[k] == e[k]);
        }
        let acc2 = acc.push(c);
        assert(acc.push(c) + rest =~= acc + content);
        if c == '"' || c == '\\' || c as u32 == 8 || c as u32 == 12 || c == '\n' || c == '\r'
            || c == '\t' {
            assert(e.len() == 2);
            assert(s[i] == e[0] && s[i + 1] == e[1]);
            assert(s[i] == '\\');
            if c as u32 == 8 || c as u32 == 12 {
                vstd::utf8::char_u32_cast(c, c as u32);
            }
            lemma_parse_escaped(s, i + 2, rest, acc2);
        } else if (c as u32) < 32 {
            assert(e == seq![
                '\\',
                'u',
                '0',
                '0',
                hex_char(c as int / 16),
                hex_char(c as int % 16),
            ]);
            assert(e.len() == 6);
            assert(e[4] == hex_char(c as int / 16));
            assert(e[5] == hex_char(c as int % 16));
            assert(s[i] == e[0] && s[i + 1] == e[1] && s[i + 2] == e[2] && s[i + 3] == e[3]
                && s[i + 4] == e[4] && s[i + 5] == e[5]);
            assert(s[i + 4] == hex_char(c as int / 16));
            assert(s[i + 5] == hex_char(c as int % 16));
            assert((c as u32) < 32);
            vstd::utf8::char_u32_cast(c, c as u32);
            assert(c as int == (c as u32) as int);
            lemma_hex_char_val(c as int / 16);
            lemma_hex_char_val(c as int % 16);
            let cp = hex_val(s[i + 2]) * 4096 + hex_val(s[i + 3]) * 256 + hex_val(s[i + 4]) * 16
                + hex_val(s[i + 5]);
            assert(cp == c as int);
            assert(cp == c as u32);
            vstd::utf8::char_u32_cast(c, c as u32);
            assert((cp as u32) as char == c);
            lemma_parse_escaped(s, i + 6, rest, acc2);
        } else {
            assert(e.len() == 1);
            assert(s[i] == e[0]);
            assert(s[i] == c);
            lemma_parse_escaped(s, i + 1, rest, acc2);
        }
    }
}

/// The rejecting state never recovers.
proof fn lemma_num_run_sink(t: Seq<char>)
    ensures
        num_run(-1, t) == -1,
    decreases t.len(),
{
    if t.len() > 0 {
        lemma_num_run_sink(t.subrange(1, t.len() as int));
    }
}

/// A token the number grammar does not reject consists of number characters.
proof fn lemma_num_token_chars(st: int, t: Seq<char>)
    requires
        num_run(st, t) != -1,
    ensures
        forall|k: int| 0 <= k < t.len() ==> is_num_char(#[trigger] t[k]),
    decreases t.len(),
{
    if t.len() > 0 {
        let rest = t.subrange(1, t.len() as int);
        if num_state(st, t[0]) == -1 {
            lemma_num_run_sink(rest);
        }
        assert(is_num_char(t[0]));
        lemma_num_token_chars(num_state(st, t[0]), rest);
        assert forall|k: int| 0 <= k < t.len() implies is_num_char(#[trigger] t[k]) by {
            if k > 0 {
                assert(rest[k - 1] == t[k]);
            }
        }
    }
}

/// An accepted token starts with a sign or a digit and is not empty.
proof fn lemma_num_first(t: Seq<char>)
    requires
        num_accept(t),
    ensures
        t.len() > 0,
        t[0] == '-' || is_digit(t[0]),
{
    if t.len() > 0 {
        if num_state(0, t[0]) == -1 {
            lemma_num_run_sink(t.subrange(1, t.len() as int));
        }
    }
}

/// The maximal number-character run over a region known exactly.
proof fn lemma_num_end_exact(s: Seq<char>, i: int, e: int)
    requires
        0 <= i <= e < s.len(),
        forall|k: int| i <= k < e ==> is_num_char(#[trigger] s[k]),
        !is_num_char(s[e]),
    ensures
        num_end(s, i) == e,
    decreases e - i,
{
    if i < e {
        lemma_num_end_exact(s, i + 1, e);
    }
}

/// A character of `t` standing at `i` in `s`.
proof fn lemma_char_at(s: Seq<char>, i: int, t: Seq<char>, k: int)
    requires
        0 <= i,
        i + t.len() <= s.len(),
        s.subrange(i, i + t.len() as int) == t,
        0 <= k < t.len(),
    ensures
        s[i + k] == t[k],
{
    assert(s.subrange(i, i + t.len() as int)[k] == s[i + k]);
}

/// A slice of `t` standing at its place in `s`.
proof fn lemma_sub_at(s: Seq<char>, i: int, t: Seq<char>, a: int, b: int)
    requires
        0 <= i,
        i + t.len() <= s.len(),
        s.subrange(i, i + t.len() as int) == t,
        0 <= a <= b <= t.len(),
    ensures
        s.subrange(i + a, i + b) == t.subrange(a, b),
{
    assert forall|k: int| 0 <= k < b - a implies s.subrange(i + a, i + b)[k] == t.subrange(a, b)[k]
        by {
        assert(s.subrange(i, i + t.len() as int)[a + k] == s[i + a + k]);
    }
    assert(s.subrange(i + a, i + b) =~= t.subrange(a, b));
}

/// A well-formed value's text is not empty and opens with its own first
/// token, never whitespace and never a closing bracket.
proof fn lemma_text_first(v: JsonV)
    requires
        wf_value(v),
    ensures
        text_of(v).len() > 0,
        !is_ws(text_of(v)[0]),
        text_of(v)[0] != ']',
        text_of(v)[0] != '}',
        v is Num ==> text_of(v)[0] == '-' || is_digit(text_of(v)[0]),
{
    match v {
        JsonV::Null => {
            reveal_strlit("null");
        },
        JsonV::Bool(b) => {
            reveal_strlit("true");
            reveal_strlit("false");
        },
        JsonV::Num(t) => {
            lemma_num_first(t);
        },
        JsonV::Str(content) => {
            assert(text_of(v)[0] == '"');
        },
        JsonV::Arr(items) => {
            assert(text_of(v)[0] == '[');
        },
        JsonV::Obj(ms) => {
            assert(text_of(v)[0] == '{');
        },
    }
}

/// The element and everything after it, as the array's text writes them in
/// the state where an element is expected.
pub open spec fn arr_tail_text(items: Seq<JsonV>, k: int) -> Seq<char> {
    text_of(items[k]) + arr_text_from(items, k + 1)
}

/// The member and everything after it, as the object's text writes them in
/// the state where a member is expected.
pub open spec fn obj_tail_text(ms: Seq<(Seq<char>, JsonV)>, k: int) -> Seq<char> {
    seq!['"'] + escape_json(ms[k].0) + seq!['"', ':'] + text_of(ms[k].1) + obj_text_from(
        ms,
        k + 1,
    )
}

/// A well-formed value's text, standing in a larger buffer, parses back as
/// exactly that value; a number needs the character after its text to stop
/// the token.
pub proof fn lemma_parse_text_of(v: JsonV, s: Seq<char>, i: int)
    requires
        wf_value(v),
        0 <= i,
        i + text_of(v).len() <= s.len(),
        s.subrange(i, i + text_of(v).len() as int) == text_of(v),
        v is Num ==> i + text_of(v).len() < s.len() && !is_num_char(
            s[i + text_of(v).len() as int],
        ),
    ensures
        parse_value(s, i) == Some((v, i + text_of(v).len() as int)),
    decreases v, 0int, 0int,
{
    let t = text_of(v);
    lemma_text_first(v);
    lemma_char_at(s, i, t, 0);
    match v {
        JsonV::Null => {
            reveal_strlit("null");
            lemma_char_at(s, i, t, 1);
            lemma_char_at(s, i, t, 2);
            lemma_char_at(s, i, t, 3);
        },
        JsonV::Bool(b) => {
            reveal_strlit("true");
            reveal_strlit("false");
            lemma_char_at(s, i, t, 1);
            lemma_char_at(s, i, t, 2);
            lemma_char_at(s, i, t, 3);
            if !b {
                lemma_char_at(s, i, t, 4);
            }
        },
        JsonV::Num(nt) => {
            lemma_num_token_chars(0, nt);
            assert forall|k: int| i <= k < i + nt.len() implies is_num_char(#[trigger] s[k]) by {
                lemma_char_at(s, i, t, k - i);
            }
            lemma_num_end_exact(s, i, i + nt.len());
            assert(s.subrange(i, i + nt.len() as int) == nt);
        },
        JsonV::Str(content) => {
            let ej = escape_json(content);
            assert(t == seq!['"'] + ej + seq!['"']);
            lemma_sub_at(s, i, t, 1, 1 + ej.len() as int);
            assert(t.subrange(1, 1 + ej.len() as int) =~= ej);
            lemma_char_at(s, i, t, 1 + ej.len() as int);
            assert(t[1 + ej.len() as int] == '"');
            lemma_parse_escaped(s, i + 1, content, Seq::empty());
            assert(Seq::empty() + content =~= content);
        },
        JsonV::Arr(items) => {
            let ft = arr_text_from(items, 0);
            assert(t == seq!['['] + ft + seq![']']);
            if items.len() == 0 {
                assert(ft =~= Seq::<char>::empty());
                lemma_char_at(s, i, t, 1);
                assert(t[1] == ']');
                assert(parse_arr_tail(s, i + 1, Seq::empty()) == Some(
                    (Seq::<JsonV>::empty(), i + 2),
                ));
                assert(items =~= Seq::<JsonV>::empty());
                assert(JsonV::Arr(Seq::<JsonV>::empty()) == v);
            } else {
                assert(arr_tail_text(items, 0) =~= ft);
                lemma_sub_at(s, i, t, 1, 1 + ft.len() as int);
                assert(t.subrange(1, 1 + ft.len() as int) =~= ft);
                lemma_char_at(s, i, t, 1 + ft.len() as int);
                assert(t[1 + ft.len() as int] == ']');
                lemma_arr_items_at(items, 0, s, i + 1, Seq::empty());
                assert(Seq::<JsonV>::empty() + items.subrange(0, items.len() as int) =~= items);
            }
        },
        JsonV::Obj(ms) => {
            let ft = obj_text_from(ms, 0);
            assert(t == seq!['{'] + ft + seq!['}']);
            if ms.len() == 0 {
                assert(ft =~= Seq::<char>::empty());
                lemma_char_at(s, i, t, 1);
                assert(t[1] == '}');
                assert(parse_obj_tail(s, i + 1, Seq::<(Seq<char>, JsonV)>::empty()) == Some(
                    (Seq::<(Seq<char>, JsonV)>::empty(), i + 2),
                ));
                assert(ms =~= Seq::<(Seq<char>, JsonV)>::empty());
                assert(JsonV::Obj(Seq::<(Seq<char>, JsonV)>::empty()) == v);
            } else {
                assert(obj_tail_text(ms, 0) =~= ft);
                lemma_sub_at(s, i, t, 1, 1 + ft.len() as int);
                assert(t.subrange(1, 1 + ft.len() as int) =~= ft);
                lemma_char_at(s, i, t, 1 + ft.len() as int);
                assert(t[1 + ft.len() as int] == '}');
                lemma_obj_members_at(ms, 0, s, i + 1, Seq::empty());
                assert(Seq::<(Seq<char>, JsonV)>::empty() + ms.subrange(0, ms.len() as int)
                    =~= ms);
            }
        },
    }
}

/// Array elements from `k` on, written without a leading comma, parse in the
/// element state back to themselves.
proof fn lemma_arr_items_at(items: Seq<JsonV>, k: int, s: Seq<char>, p: int, acc: Seq<JsonV>)
    requires
        0 <= k < items.len(),
        wf_elems(items, k),
        0 <= p,
        p + arr_tail_text(items, k).len() + 1 <= s.len(),
        s.subrange(p, p + arr_tail_text(items, k).len() as int) == arr_tail_text(items, k),
        s[p + arr_tail_text(items, k).len() as int] == ']',
    ensures
        parse_arr_tail(s, p, acc) == Some(
            (
                acc + items.subrange(k, items.len() as int),
                p + arr_tail_text(items, k).len() + 1,
            ),
        ),
    decreases items, items.len() - k, 0int,
{
    let tt = arr_tail_text(items, k);
    let et = text_of(items[k]);
    let rt = arr_text_from(items, k + 1);
    assert(tt == et + rt);
    lemma_text_first(items[k]);
    lemma_sub_at(s, p, tt, 0, et.len() as int);
    assert(tt.subrange(0, et.len() as int) =~= et);
    // the character after the element stops a number token
    if k + 1 < items.len() {
        lemma_char_at(s, p, tt, et.len() as int);
        assert(rt[0] == ',');
        assert(s[p + et.len() as int] == ',');
    } else {
        assert(rt =~= Seq::<char>::empty());
        assert(s[p + et.len() as int] == ']');
    }
    lemma_parse_text_of(items[k], s, p);
    lemma_char_at(s, p, tt, 0);
    let q = p + et.len() as int;
    assert(step_to(p, q, s.len() as int) == q);
    lemma_sub_at(s, p, tt, et.len() as int, tt.len() as int);
    assert(tt.subrange(et.len() as int, tt.len() as int) =~= rt);
    lemma_arr_after(items, k + 1, s, q, acc.push(items[k]));
    assert(acc.push(items[k]) + items.subrange(k + 1, items.len() as int) =~= acc
        + items.subrange(k, items.len() as int));
}

/// What follows an array element — the closing bracket, or a comma and the
/// rest — parses in the separator state back to the remaining elements.
proof fn lemma_arr_after(items: Seq<JsonV>, k: int, s: Seq<char>, q: int, acc: Seq<JsonV>)
    requires
        1 <= k <= items.len(),
        wf_elems(items, k),
        0 <= q,
        q + arr_text_from(items, k).len() + 1 <= s.len(),
        s.subrange(q, q + arr_text_from(items, k).len() as int) == arr_text_from(items, k),
        s[q + arr_text_from(items, k).len() as int] == ']',
    ensures
        parse_arr_sep(s, q, acc) == Some(
            (
                acc + items.subrange(k, items.len() as int),
                q + arr_text_from(items, k).len() + 1,
            ),
        ),
    decreases items, items.len() - k, 1int,
{
    let ft = arr_text_from(items, k);
    if k == items.len() {
        assert(ft =~= Seq::<char>::empty());
        assert(s[q] == ']');
        assert(acc + items.subrange(k, items.len() as int) =~= acc);
    } else {
        assert(ft == seq![','] + arr_tail_text(items, k));
        lemma_char_at(s, q, ft, 0);
        assert(s[q] == ',');
        lemma_sub_at(s, q, ft, 1, ft.len() as int);
        assert(ft.subrange(1, ft.len() as int) =~= arr_tail_text(items, k));
        lemma_arr_items_at(items, k, s, q + 1, acc);
    }
}

/// Object members from `k` on, written without a leading comma, parse in
/// the member state back to themselves.
proof fn lemma_obj_members_at(
    ms: Seq<(Seq<char>, JsonV)>,
    k: int,
    s: Seq<char>,
    p: int,
    acc: Seq<(Seq<char>, JsonV)>,
)
    requires
        0 <= k < ms.len(),
        wf_members(ms, k),
        0 <= p,
        p + obj_tail_text(ms, k).len() + 1 <= s.len(),
        s.subrange(p, p + obj_tail_text(ms, k).len() as int) == obj_tail_text(ms, k),
        s[p + obj_tail_text(ms, k).len() as int] == '}',
    ensures
        parse_obj_tail(s, p, acc) == Some(
            (acc + ms.subrange(k, ms.len() as int), p + obj_tail_text(ms, k).len() + 1),
        ),
    decreases ms, ms.len() - k, 0int,
{
    let tt = obj_tail_text(ms, k);
    let key = ms[k].0;
    let ek = escape_json(key);
    let vt = text_of(ms[k].1);
    let rt = obj_text_from(ms, k + 1);
    assert(tt == seq!['"'] + ek + seq!['"', ':'] + vt + rt);
    lemma_char_at(s, p, tt, 0);
    assert(tt[0] == '"');
    // the key string
    lemma_sub_at(s, p, tt, 1, 1 + ek.len() as int);
    assert(tt.subrange(1, 1 + ek.len() as int) =~= ek);
    lemma_char_at(s, p, tt, 1 + ek.len() as int);
    assert(tt[1 + ek.len() as int] == '"');
    lemma_parse_escaped(s, p + 1, key, Seq::empty());
    assert(Seq::empty() + key =~= key);
    let q = p + ek.len() + 2;
    assert(step_to(p, q, s.len() as int) == q);
    // the colon
    lemma_char_at(s, p, tt, ek.len() as int + 2);
    assert(tt[ek.len() as int + 2] == ':');
    assert(s[q] == ':');
    // the member's value
    let r = q + 1;
    lemma_text_first(ms[k].1);
    lemma_sub_at(s, p, tt, ek.len() as int + 3, ek.len() as int + 3 + vt.len() as int);
    assert(tt.subrange(ek.len() as int + 3, ek.len() as int + 3 + vt.len() as int) =~= vt);
    assert(s.subrange(r, r + vt.len() as int) == vt);
    lemma_char_at(s, r, vt, 0);
    if k + 1 < ms.len() {
        lemma_char_at(s, p, tt, ek.len() as int + 3 + vt.len() as int);
        assert(rt[0] == ',');
        assert(s[r + vt.len() as int] == ',');
    } else {
        assert(rt =~= Seq::<char>::empty());
        assert(s[r + vt.len() as int] == '}');
    }
    lemma_parse_text_of(ms[k].1, s, r);
    let w = r + vt.len() as int;
    assert(step_to(r, w, s.len() as int) == w);
    lemma_sub_at(s, p, tt, ek.len() as int + 3 + vt.len() as int, tt.len() as int);
    assert(tt.subrange(ek.len() as int + 3 + vt.len() as int, tt.len() as int) =~= rt);
    lemma_obj_after(ms, k + 1, s, w, acc.push((key, ms[k].1)));
    assert(parse_string_body(s, p + 1, Seq::empty()) == Some((key, q)));
    assert(parse_obj_tail(s, p, acc) == parse_colon(s, q, key, acc));
    assert(parse_colon(s, q, key, acc) == parse_member_val(s, r, key, acc));
    assert(parse_value(s, r) == Some((ms[k].1, w)));
    assert(parse_member_val(s, r, key, acc) == parse_obj_sep(s, w, acc.push((key, ms[k].1))));
    assert((key, ms[k].1) == ms[k]);
    assert(acc.push(ms[k]) + ms.subrange(k + 1, ms.len() as int) =~= acc + ms.subrange(
        k,
        ms.len() as int,
    ));
}

/// What follows an object member — the closing brace, or a comma and the
/// rest — parses in the separator state back to the remaining members.
proof fn lemma_obj_after(
    ms: Seq<(Seq<char>, JsonV)>,
    k: int,
    s: Seq<char>,
    q: int,
    acc: Seq<(Seq<char>, JsonV)>,
)
    requires
        1 <= k <= ms.len(),
        wf_members(ms, k),
        0 <= q,
        q + obj_text_from(ms, k).len() + 1 <= s.len(),
        s.subrange(q, q + obj_text_from(ms, k).len() as int) == obj_text_from(ms, k),
        s[q + obj_text_from(ms, k).len() as int] == '}',
    ensures
        parse_obj_sep(s, q, acc) == Some(
            (acc + ms.subrange(k, ms.len() as int), q + obj_text_from(ms, k).len() + 1),
        ),
    decreases ms, ms.len() - k, 1int,
{
    let ft = obj_text_from(ms, k);
    if k == ms.len() {
        assert(ft =~= Seq::<char>::empty());
        assert(s[q] == '}');
        assert(acc + ms.subrange(k, ms.len() as int) =~= acc);
    } else {
        assert(ft == seq![','] + obj_tail_text(ms, k));
        lemma_char_at(s, q, ft, 0);
        assert(s[q] == ',');
        lemma_sub_at(s, q, ft, 1, ft.len() as int);
        assert(ft.subrange(1, ft.len() as int) =~= obj_tail_text(ms, k));
        lemma_obj_members_at(ms, k, s, q + 1, acc);
    }
}

/// Law (writing and reading agree): a well-formed value other than a bare
/// number, written by `text_of`, is a complete value text for exactly that
/// value — so a batch of such values, written back to back and split
/// anywhere, comes out of the framer as itself, by the framing round trip.
/// (A bare number at the top level is rightly excluded: its text could
/// still grow, so an incremental reader must wait rather than emit it.)
pub proof fn lemma_write_read_agree(v: JsonV)
    requires
        wf_value(v),
        !(v is Num),
    ensures
        crate::framer::value_text(text_of(v), v),
{
    let t = text_of(v);
    lemma_text_first(v);
    assert(t.subrange(0, t.len() as int) =~= t);
    lemma_parse_text_of(v, t, 0);
}

/// Law (the stream round trip, end to end): any sequence of well-formed
/// values other than bare numbers, written back to back and cut into chunks
/// at arbitrary positions — in the middle of a value, of a string, of an
/// escape — feeds through the framer as exactly those values, in order,
/// with nothing left pending.
pub proof fn lemma_values_stream_round_trip(vals: Seq<JsonV>, chunks: Seq<Seq<char>>)
    requires
        chunks.len() >= 1,
        forall|k: int|
            0 <= k < vals.len() ==> wf_value(#[trigger] vals[k]) && !(vals[k] is Num),
        crate::framer::concat_texts(chunks) == crate::framer::concat_texts(
            vals.map(|i: int, v: JsonV| text_of(v)),
        ),
    ensures
        crate::framer::feed_all(Seq::empty(), chunks) == (vals, Seq::<char>::empty()),
{
    let texts = vals.map(|i: int, v: JsonV| text_of(v));
    assert forall|k: int|
        0 <= k < texts.len() implies crate::framer::value_text(#[trigger] texts[k], vals[k]) by {
        lemma_write_read_agree(vals[k]);
    }
    crate::framer::lemma_framing_round_trip(texts, vals, chunks);
}

} // verus!
