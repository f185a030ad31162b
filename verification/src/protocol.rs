//! Message shapes on the wire: normalization of decoded JSON values into
//! individual messages, and the typed view of a message that the routine
//! engine consumes (discriminant, optional title, optional map cells).

use vstd::prelude::*;
use crate::json::{
    jmodel,
    jmodels,
    lemma_arr_model,
    lemma_model_variant,
    lemma_obj_model,
    pairs_model,
    Json,
    JsonV,
};
use crate::map::{Cell, CellV};
use crate::util::str_eq;

verus! {

/// The value of `key` in a member list: the last binding wins, as it does
/// for the map-backed JSON objects this protocol's consumers use.
pub open spec fn obj_get(ms: Seq<(Seq<char>, JsonV)>, key: Seq<char>) -> Option<JsonV>
    decreases ms.len(),
{
    if ms.len() == 0 {
        None
    } else if ms.last().0 == key {
        Some(ms.last().1)
    } else {
        obj_get(ms.drop_last(), key)
    }
}

/// Looks `key` up in an object's members, last binding first.
pub fn obj_find<'a>(ms: &'a Vec<(String, Json)>, key: &str) -> (r: Option<&'a Json>)
    ensures
        match r {
            Some(j) => obj_get(pairs_model(ms@), key@) == Some(jmodel(*j)),
            None => obj_get(pairs_model(ms@), key@) is None,
        },
{
    let ghost model = pairs_model(ms@);
    proof {
        assert(model.subrange(0, model.len() as int) =~= model);
    }
    let mut i: usize = ms.len();
    while i > 0
        invariant
            model == pairs_model(ms@),
            i <= ms@.len(),
            obj_get(model, key@) == obj_get(model.subrange(0, i as int), key@),
        decreases i,
    {
        i = i - 1;
        proof {
            assert(model.subrange(0, i + 1).last() == model[i as int]);
            assert(model.subrange(0, i + 1).drop_last() =~= model.subrange(0, i as int));
        }
        if str_eq(ms[i].0.as_str(), key) {
            return Some(&ms[i].1);
        }
    }
    proof {
        assert(model.subrange(0, 0) =~= Seq::<(Seq<char>, JsonV)>::empty());
    }
    None
}

/// The position of the winning (last) binding of `key`, if any.
fn find_last_key(ms: &Vec<(String, Json)>, key: &str) -> (r: Option<usize>)
    ensures
        match r {
            Some(i) => {
                &&& i < ms@.len()
                &&& pairs_model(ms@)[i as int].0 == key@
                &&& obj_get(pairs_model(ms@), key@) == Some(pairs_model(ms@)[i as int].1)
            },
            None => obj_get(pairs_model(ms@), key@) is None,
        },
{
    let ghost model = pairs_model(ms@);
    proof {
        assert(model.subrange(0, model.len() as int) =~= model);
    }
    let mut i: usize = ms.len();
    while i > 0
        invariant
            model == pairs_model(ms@),
            i <= ms@.len(),
            obj_get(model, key@) == obj_get(model.subrange(0, i as int), key@),
        decreases i,
    {
        i = i - 1;
        proof {
            assert(model.subrange(0, i + 1).last() == model[i as int]);
            assert(model.subrange(0, i + 1).drop_last() =~= model.subrange(0, i as int));
        }
        if str_eq(ms[i].0.as_str(), key) {
            return Some(i);
        }
    }
    proof {
        assert(model.subrange(0, 0) =~= Seq::<(Seq<char>, JsonV)>::empty());
    }
    None
}

/// How one decoded JSON value fans out into messages: an array is its
/// elements; an object whose `msgs` member is an array is that array's
/// elements; anything else is a single message.
pub open spec fn normalize_spec(v: JsonV) -> Seq<JsonV> {
    match v {
        JsonV::Arr(items) => items,
        JsonV::Obj(ms) => match obj_get(ms, "msgs"@) {
            Some(JsonV::Arr(items)) => items,
            _ => seq![v],
        },
        _ => seq![v],
    }
}

/// Splits one decoded JSON value into its individual messages, in order.
pub fn normalize_messages(v: Json) -> (r: Vec<Json>)
    ensures
        jmodels(r@) == normalize_spec(jmodel(v)),
{
    let ghost v0 = jmodel(v);
    match v {
        Json::Arr(items) => {
            proof {
                lemma_arr_model(items);
                assert(jmodels(items@) =~= normalize_spec(v0));
            }
            items
        },
        Json::Obj(mut ms) => {
            proof {
                lemma_obj_model(ms);
            }
            let ghost m0 = pairs_model(ms@);
            assert(v0 == JsonV::Obj(m0));
            let found = find_last_key(&ms, "msgs");
            match found {
                Some(i) => {
                    let is_arr = match &ms[i].1 {
                        Json::Arr(_) => true,
                        _ => false,
                    };
                    if is_arr {
                        let (_k, jv) = ms.remove(i);
                        match jv {
                            Json::Arr(items) => {
                                proof {
                                    lemma_arr_model(items);
                                    assert(obj_get(m0, "msgs"@) == Some(
                                        JsonV::Arr(jmodels(items@)),
                                    ));
                                    assert(jmodels(items@) =~= normalize_spec(v0));
                                }
                                items
                            },
                            _ => {
                                proof {
                                    assert(false);
                                }
                                Vec::new()
                            },
                        }
                    } else {
                        let r = vec![Json::Obj(ms)];
                        proof {
                            assert(jmodels(r@) =~= normalize_spec(v0));
                        }
                        r
                    }
                },
                None => {
                    let r = vec![Json::Obj(ms)];
                    proof {
                        assert(jmodels(r@) =~= normalize_spec(v0));
                    }
                    r
                },
            }
        },
        other => {
            let r = vec![other];
            proof {
                assert(jmodels(r@) =~= normalize_spec(v0));
            }
            r
        },
    }
}

/// A decimal digit.
pub open spec fn is_digit(c: char) -> bool {
    '0' <= c && c <= '9'
}

/// The numeric value of a digit character.
pub open spec fn digit_val(c: char) -> int {
    c as int - '0' as int
}

/// The value of a plain digit string, most significant first.
pub open spec fn dec_val(s: Seq<char>) -> int
    decreases s.len(),
{
    if s.len() == 0 {
        0
    } else {
        dec_val(s.drop_last()) * 10 + digit_val(s.last())
    }
}

/// Every character is a digit.
pub open spec fn all_digits(s: Seq<char>) -> bool {
    forall|i: int| 0 <= i < s.len() ==> is_digit(#[trigger] s[i])
}

/// The integer a number text denotes, when it is a plain integer: an
/// optional minus sign and one or more digits, nothing else. A text with a
/// fraction or exponent denotes no integer here.
pub open spec fn int_of_num(s: Seq<char>) -> Option<int> {
    if s.len() > 0 && s[0] == '-' {
        let t = s.subrange(1, s.len() as int);
        if t.len() > 0 && all_digits(t) {
            Some(-dec_val(t))
        } else {
            None
        }
    } else {
        if s.len() > 0 && all_digits(s) {
            Some(dec_val(s))
        } else {
            None
        }
    }
}

/// Reads a digit run as a value, reporting only whether it stays within
/// `bound`; larger values saturate the report, never the mathematics.
fn dec_val_bounded(t: &Vec<char>, from: usize, bound: i64) -> (r: Option<i64>)
    requires
        from <= t@.len(),
        0 < bound <= 0x7fff_ffff_ffff,
        all_digits(t@.subrange(from as int, t@.len() as int)),
    ensures
        ({
            let v = dec_val(t@.subrange(from as int, t@.len() as int));
            match r {
                Some(x) => 0 <= x && x == v && v <= bound,
                None => v > bound,
            }
        }),
{
    let ghost whole = t@.subrange(from as int, t@.len() as int);
    let mut acc: i64 = 0;
    let mut over = false;
    let mut i: usize = from;
    proof {
        assert(whole.subrange(0, 0) =~= Seq::<char>::empty());
    }
    while i < t.len()
        invariant
            from <= i <= t@.len(),
            whole == t@.subrange(from as int, t@.len() as int),
            all_digits(whole),
            0 < bound <= 0x7fff_ffff_ffff,
            !over ==> 0 <= acc <= bound && acc == dec_val(whole.subrange(0, i - from)),
            over ==> dec_val(whole.subrange(0, i - from)) > bound,
        decreases t@.len() - i,
    {
        let c = t[i];
        proof {
            assert(whole[i - from] == t@[i as int]);
            assert(is_digit(whole[i - from]));
            assert(whole.subrange(0, i + 1 - from).drop_last() =~= whole.subrange(0, i - from));
            assert(whole.subrange(0, i + 1 - from).last() == whole[i - from]);
        }
        let d: i64 = (c as u32) as i64 - 48;
        assert(d == digit_val(whole[i - from]));
        if !over {
            let next = acc * 10 + d;
            if next > bound {
                over = true;
            } else {
                acc = next;
            }
        }
        i = i + 1;
    }
    proof {
        assert(whole.subrange(0, i - from) =~= whole);
    }
    if over {
        None
    } else {
        Some(acc)
    }
}

/// Reads a number text as an `i32`, exactly when `int_of_num` gives a value
/// in the `i32` range.
#[verifier::loop_isolation(false)]
pub fn num_i32(t: &String) -> (r: Option<i32>)
    ensures
        match r {
            Some(v) => int_of_num(t@) == Some(v as int),
            None => !(int_of_num(t@) is Some && -0x8000_0000 <= int_of_num(t@).unwrap()
                <= 0x7fff_ffff),
        },
{
    let cs = crate::util::str_chars(t.as_str());
    if cs.len() == 0 {
        return None;
    }
    let neg = cs[0] == '-';
    let from: usize = if neg {
        1
    } else {
        0
    };
    if cs.len() == from {
        return None;
    }
    let mut k: usize = from;
    while k < cs.len()
        invariant
            from <= k <= cs@.len(),
            forall|j: int| from <= j < k ==> is_digit(#[trigger] cs@[j]),
        decreases cs@.len() - k,
    {
        let c = cs[k];
        if c < '0' || c > '9' {
            proof {
                let tail = cs@.subrange(from as int, cs@.len() as int);
                assert(tail[k - from] == cs@[k as int]);
                assert(!all_digits(tail));
                if from == 0 {
                    assert(tail =~= cs@);
                }
            }
            return None;
        }
        k = k + 1;
    }
    proof {
        let tail = cs@.subrange(from as int, cs@.len() as int);
        assert(forall|j: int| 0 <= j < tail.len() ==> tail[j] == cs@[j + from]);
        assert(all_digits(tail));
        if from == 0 {
            assert(tail =~= cs@);
        }
    }
    let v = dec_val_bounded(&cs, from, 0x8000_0000);
    match v {
        None => None,
        Some(x) => {
            if neg {
                Some((-x) as i32)
            } else if x <= 0x7fff_ffff {
                Some(x as i32)
            } else {
                None
            }
        },
    }
}

/// A structured message: the `msg` discriminant it must carry, and the
/// optional `title` and `cells` fields the client reads.
#[derive(Debug, Clone, PartialEq)]
pub struct GameMessage {
    pub msg: String,
    pub title: Option<String>,
    pub cells: Option<Vec<Cell>>,
}

/// The mathematical content of a `GameMessage`.
pub struct GameMessageV {
    pub msg: Seq<char>,
    pub title: Option<Seq<char>>,
    pub cells: Option<Seq<CellV>>,
}

impl View for GameMessage {
    type V = GameMessageV;

    open spec fn view(&self) -> GameMessageV {
        GameMessageV {
            msg: self.msg@,
            title: match self.title {
                Some(ref t) => Some(t@),
                None => None,
            },
            cells: match self.cells {
                Some(ref cs) => Some(crate::map::cells_view(cs@)),
                None => None,
            },
        }
    }
}

/// The cell a JSON value denotes: an object whose `x` and `y`, when present
/// and not null, are integers in range, and whose `g`, when present and not
/// null, is a string; anything else denotes no cell.
pub open spec fn cell_of_spec(v: JsonV) -> Option<CellV> {
    match v {
        JsonV::Obj(ms) => {
            let xr = field_i32_spec(ms, "x"@);
            let yr = field_i32_spec(ms, "y"@);
            let gr = field_str_spec(ms, "g"@);
            if xr is Some && yr is Some && gr is Some {
                Some(CellV { x: xr.unwrap(), y: yr.unwrap(), g: gr.unwrap() })
            } else {
                None
            }
        },
        _ => None,
    }
}

/// An optional integer field: absent or null reads as `None`; an integer in
/// the `i32` range reads as that value; anything else spoils the record.
pub open spec fn field_i32_spec(ms: Seq<(Seq<char>, JsonV)>, key: Seq<char>) -> Option<
    Option<int>,
> {
    match obj_get(ms, key) {
        None => Some(None),
        Some(JsonV::Null) => Some(None),
        Some(JsonV::Num(t)) => {
            if int_of_num(t) is Some && -0x8000_0000 <= int_of_num(t).unwrap() <= 0x7fff_ffff {
                Some(Some(int_of_num(t).unwrap()))
            } else {
                None
            }
        },
        Some(_) => None,
    }
}

/// An optional string field: absent or null reads as `None`; a string reads
/// as itself; anything else spoils the record.
pub open spec fn field_str_spec(ms: Seq<(Seq<char>, JsonV)>, key: Seq<char>) -> Option<
    Option<Seq<char>>,
> {
    match obj_get(ms, key) {
        None => Some(None),
        Some(JsonV::Null) => Some(None),
        Some(JsonV::Str(t)) => Some(Some(t)),
        Some(_) => None,
    }
}

/// The cells a JSON array denotes, when every element denotes one.
pub open spec fn cells_of_spec(items: Seq<JsonV>) -> Option<Seq<CellV>>
    decreases items.len(),
{
    if items.len() == 0 {
        Some(Seq::empty())
    } else {
        match cell_of_spec(items[0]) {
            None => None,
            Some(c) => match cells_of_spec(items.subrange(1, items.len() as int)) {
                None => None,
                Some(rest) => Some(seq![c] + rest),
            },
        }
    }
}

/// The structured message a JSON value denotes: an object with a string
/// `msg`; `title` absent, null or a string; `cells` absent, null or an array
/// of cell records. Any other shape denotes no message and is dropped.
pub open spec fn message_of_spec(v: JsonV) -> Option<GameMessageV> {
    match v {
        JsonV::Obj(ms) => {
            match obj_get(ms, "msg"@) {
                Some(JsonV::Str(m)) => {
                    let tr = field_str_spec(ms, "title"@);
                    let cr = match obj_get(ms, "cells"@) {
                        None => Some(None),
                        Some(JsonV::Null) => Some(None),
                        Some(JsonV::Arr(items)) => match cells_of_spec(items) {
                            Some(cs) => Some(Some(cs)),
                            None => None,
                        },
                        Some(_) => None,
                    };
                    if tr is Some && cr is Some {
                        Some(GameMessageV { msg: m, title: tr.unwrap(), cells: cr.unwrap() })
                    } else {
                        None
                    }
                },
                _ => None,
            }
        },
        _ => None,
    }
}

fn field_i32(ms: &Vec<(String, Json)>, key: &str) -> (r: Option<Option<i32>>)
    ensures
        match r {
            Some(None) => field_i32_spec(pairs_model(ms@), key@) == Some(None::<int>),
            Some(Some(v)) => field_i32_spec(pairs_model(ms@), key@) == Some(Some(v as int)),
            None => field_i32_spec(pairs_model(ms@), key@) is None,
        },
{
    match obj_find(ms, key) {
        None => Some(None),
        Some(j) => match j {
            Json::Null => Some(None),
            Json::Num(t) => match num_i32(t) {
                Some(v) => Some(Some(v)),
                None => None,
            },
            _ => None,
        },
    }
}

fn field_str(ms: &Vec<(String, Json)>, key: &str) -> (r: Option<Option<String>>)
    ensures
        match r {
            Some(None) => field_str_spec(pairs_model(ms@), key@) == Some(None::<Seq<char>>),
            Some(Some(ref t)) => field_str_spec(pairs_model(ms@), key@) == Some(Some(t@)),
            None => field_str_spec(pairs_model(ms@), key@) is None,
        },
{
    match obj_find(ms, key) {
        None => Some(None),
        Some(j) => match j {
            Json::Null => Some(None),
            Json::Str(t) => Some(Some(t.clone())),
            _ => None,
        },
    }
}

fn cell_of(v: &Json) -> (r: Option<Cell>)
    ensures
        match r {
            Some(c) => cell_of_spec(jmodel(*v)) == Some(c@),
            None => cell_of_spec(jmodel(*v)) is None,
        },
{
    match v {
        Json::Obj(ms) => {
            proof {
                lemma_obj_model(*ms);
            }
            let xr = match field_i32(ms, "x") {
                Some(x) => x,
                None => {
                    return None;
                },
            };
            let yr = match field_i32(ms, "y") {
                Some(y) => y,
                None => {
                    return None;
                },
            };
            let gr = match field_str(ms, "g") {
                Some(g) => g,
                None => {
                    return None;
                },
            };
            Some(Cell { x: xr, y: yr, g: gr })
        },
        _ => None,
    }
}

fn cells_of(items: &Vec<Json>) -> (r: Option<Vec<Cell>>)
    ensures
        match r {
            Some(ref cs) => cells_of_spec(jmodels(items@)) == Some(crate::map::cells_view(cs@)),
            None => cells_of_spec(jmodels(items@)) is None,
        },
{
    let ghost model = jmodels(items@);
    let mut out: Vec<Cell> = Vec::new();
    let mut i: usize = 0;
    proof {
        assert(model.subrange(0, model.len() as int) =~= model);
        assert(crate::map::cells_view(out@) =~= Seq::<CellV>::empty());
        if cells_of_spec(model) is Some {
            assert(crate::map::cells_view(out@) + cells_of_spec(model).unwrap()
                =~= cells_of_spec(model).unwrap());
        }
    }
    while i < items.len()
        invariant
            model == jmodels(items@),
            i <= items@.len(),
            cells_of_spec(model) == match cells_of_spec(
                model.subrange(i as int, model.len() as int),
            ) {
                None => None::<Seq<CellV>>,
                Some(rest) => Some(crate::map::cells_view(out@) + rest),
            },
        decreases items@.len() - i,
    {
        let ghost rem = model.subrange(i as int, model.len() as int);
        proof {
            assert(rem[0] == model[i as int]);
            assert(rem.subrange(1, rem.len() as int) =~= model.subrange(
                i + 1,
                model.len() as int,
            ));
        }
        match cell_of(&items[i]) {
            None => {
                return None;
            },
            Some(c) => {
                let ghost pre = out@;
                out.push(c);
                proof {
                    assert(crate::map::cells_view(out@) =~= crate::map::cells_view(pre) + seq![
                        c@,
                    ]);
                    let remn = model.subrange(i + 1, model.len() as int);
                    if cells_of_spec(remn) is Some {
                        let rest = cells_of_spec(remn).unwrap();
                        assert(crate::map::cells_view(pre) + (seq![c@] + rest)
                            =~= crate::map::cells_view(out@) + rest);
                    }
                }
            },
        }
        i = i + 1;
    }
    proof {
        assert(model.subrange(i as int, model.len() as int) =~= Seq::<JsonV>::empty());
        assert(crate::map::cells_view(out@) + Seq::<CellV>::empty() =~= crate::map::cells_view(
            out@,
        ));
    }
    Some(out)
}

impl GameMessage {
    /// Reads a decoded JSON value as a structured message, exactly as
    /// `message_of_spec` describes; any other shape is dropped.
    pub fn of_json(v: &Json) -> (r: Option<GameMessage>)
        ensures
            match r {
                Some(m) => message_of_spec(jmodel(*v)) == Some(m@),
                None => message_of_spec(jmodel(*v)) is None,
            },
    {
        match v {
            Json::Obj(ms) => {
                proof {
                    lemma_obj_model(*ms);
                    assert(*v == Json::Obj(*ms));
                    assert(jmodel(*v) == JsonV::Obj(pairs_model(ms@)));
                }
                let msg = match obj_find(ms, "msg") {
                    Some(j) => match j {
                        Json::Str(m) => m.clone(),
                        _ => {
                            proof {
                                lemma_model_variant(*j);
                            }
                            return None;
                        },
                    },
                    None => {
                        return None;
                    },
                };
                let title = match field_str(ms, "title") {
                    Some(t) => t,
                    None => {
                        return None;
                    },
                };
                let cells = match obj_find(ms, "cells") {
                    None => None,
                    Some(j) => match j {
                        Json::Null => None,
                        Json::Arr(items) => {
                            proof {
                                lemma_arr_model(*items);
                            }
                            match cells_of(items) {
                                Some(cs) => Some(cs),
                                None => {
                                    return None;
                                },
                            }
                        },
                        _ => {
                            proof {
                                lemma_model_variant(*j);
                            }
                            return None;
                        },
                    },
                };
                Some(GameMessage { msg, title, cells })
            },
            _ => {
                proof {
                    lemma_model_variant(*v);
                }
                None
            },
        }
    }
}

} // verus!
