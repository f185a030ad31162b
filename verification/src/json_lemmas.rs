//! Laws of the incremental parser. A value that parses completely out of a
//! buffer parses to the same value, ending at the same place, however many
//! bytes arrive after it; and parsing is indifferent to what stood before
//! the buffer's start. Together these let the framer carve a stream into
//! values without ever duplicating or losing one, wherever the transport
//! split it.

use vstd::prelude::*;
use crate::json::{
    is_ws,
    num_end,
    parse_arr_sep,
    parse_arr_tail,
    parse_colon,
    parse_member_val,
    parse_number,
    parse_obj_sep,
    parse_obj_tail,
    parse_string_body,
    parse_value,
    skip_ws,
    step_to,
    JsonV,
};

verus! {

/// A run of number characters that ends inside the buffer ends at the same
/// place in any extension.
proof fn lemma_num_end_extends(a: Seq<char>, b: Seq<char>, i: int)
    requires
        0 <= i,
        num_end(a, i) < a.len(),
    ensures
        num_end(a + b, i) == num_end(a, i),
    decreases a.len() - i,
{
    if i < a.len() && is_num_char_at(a, i) {
        lemma_num_end_extends(a, b, i + 1);
    }
}

/// Spelled-out guard so the lemma above can branch as the definition does.
spec fn is_num_char_at(s: Seq<char>, i: int) -> bool {
    0 <= i < s.len() && crate::json::is_num_char(s[i])
}

/// A number that parses completely parses the same in any extension.
proof fn lemma_number_extends(a: Seq<char>, b: Seq<char>, i: int)
    requires
        0 <= i < a.len(),
    ensures
        parse_number(a, i) matches Some(r) ==> parse_number(a + b, i) == Some(r),
{
    if parse_number(a, i) is Some {
        let e = num_end(a, i);
        lemma_num_end_advances(a, i);
        lemma_num_end_extends(a, b, i);
        assert((a + b).subrange(i, e) =~= a.subrange(i, e));
    }
}

/// A string body that closes inside the buffer parses the same in any
/// extension.
proof fn lemma_string_extends(a: Seq<char>, b: Seq<char>, i: int, acc: Seq<char>)
    ensures
        parse_string_body(a, i, acc) matches Some(r) ==> parse_string_body(a + b, i, acc)
            == Some(r),
    decreases a.len() - i,
{
    if parse_string_body(a, i, acc) is Some {
        let c = a[i];
        if c == '"' {
        } else if c == '\\' {
            let e = a[i + 1];
            if e == '"' || e == '\\' || e == '/' || e == 'b' || e == 'f' || e == 'n' || e == 'r'
                || e == 't' {
                let pushed = if e == '"' {
                    '"'
                } else if e == '\\' {
                    '\\'
                } else if e == '/' {
                    '/'
                } else if e == 'b' {
                    8u32 as char
                } else if e == 'f' {
                    12u32 as char
                } else if e == 'n' {
                    '\n'
                } else if e == 'r' {
                    '\r'
                } else {
                    '\t'
                };
                lemma_string_extends(a, b, i + 2, acc.push(pushed));
            } else {
                // the four-digit escape, with or without its low surrogate
                let cp = crate::json::hex_val(a[i + 2]) * 4096 + crate::json::hex_val(a[i + 3])
                    * 256 + crate::json::hex_val(a[i + 4]) * 16 + crate::json::hex_val(a[i + 5]);
                if 0xD800 <= cp < 0xDC00 {
                    let lo = crate::json::hex_val(a[i + 8]) * 4096 + crate::json::hex_val(
                        a[i + 9],
                    ) * 256 + crate::json::hex_val(a[i + 10]) * 16 + crate::json::hex_val(
                        a[i + 11],
                    );
                    let combined = 0x10000 + (cp - 0xD800) * 0x400 + (lo - 0xDC00);
                    lemma_string_extends(a, b, i + 12, acc.push(combined as u32 as char));
                } else {
                    lemma_string_extends(a, b, i + 6, acc.push(cp as u32 as char));
                }
            }
        } else {
            lemma_string_extends(a, b, i + 1, acc.push(c));
        }
    }
}

/// A value that parses completely parses the same in any extension.
pub proof fn lemma_value_extends(a: Seq<char>, b: Seq<char>, i: int)
    ensures
        parse_value(a, i) matches Some(r) ==> parse_value(a + b, i) == Some(r),
    decreases a.len() - i, 1int,
{
    if parse_value(a, i) is Some {
        let c = a[i];
        if c == '"' {
            lemma_string_extends(a, b, i + 1, Seq::empty());
        } else if c == '-' || crate::json::is_digit(c) {
            lemma_number_extends(a, b, i);
        } else if c == '[' {
            lemma_arr_tail_extends(a, b, i + 1, Seq::empty());
        } else if c == '{' {
            lemma_obj_tail_extends(a, b, i + 1, Seq::empty());
        }
    }
}

proof fn lemma_arr_tail_extends(a: Seq<char>, b: Seq<char>, k: int, acc: Seq<JsonV>)
    ensures
        parse_arr_tail(a, k, acc) matches Some(r) ==> parse_arr_tail(a + b, k, acc) == Some(r),
    decreases a.len() - k, 2int,
{
    if parse_arr_tail(a, k, acc) is Some {
        if is_ws(a[k]) {
            lemma_arr_tail_extends(a, b, k + 1, acc);
        } else if a[k] == ']' && acc.len() == 0 {
        } else {
            let (v, j) = parse_value(a, k).unwrap();
            lemma_value_extends(a, b, k);
            lemma_value_advances(a, k);
            lemma_step_to_same(k, j, a.len() as int, (a + b).len() as int);
            lemma_arr_sep_extends(a, b, step_to(k, j, a.len() as int), acc.push(v));
        }
    }
}

/// The clamp agrees across extension wherever the sub-parse succeeded in the
/// shorter buffer (its end lies inside it).
pub proof fn lemma_step_to_same(lo: int, j: int, n1: int, n2: int)
    requires
        n1 <= n2,
        j <= n1,
    ensures
        step_to(lo, j, n1) == step_to(lo, j, n2),
{
}

proof fn lemma_arr_sep_extends(a: Seq<char>, b: Seq<char>, m: int, acc: Seq<JsonV>)
    ensures
        parse_arr_sep(a, m, acc) matches Some(r) ==> parse_arr_sep(a + b, m, acc) == Some(r),
    decreases a.len() - m, 2int,
{
    if parse_arr_sep(a, m, acc) is Some {
        if is_ws(a[m]) {
            lemma_arr_sep_extends(a, b, m + 1, acc);
        } else if a[m] == ']' {
        } else if a[m] == ',' {
            lemma_arr_tail_extends(a, b, m + 1, acc);
        }
    }
}

proof fn lemma_obj_tail_extends(a: Seq<char>, b: Seq<char>, k: int, acc: Seq<(Seq<char>, JsonV)>)
    ensures
        parse_obj_tail(a, k, acc) matches Some(r) ==> parse_obj_tail(a + b, k, acc) == Some(r),
    decreases a.len() - k, 2int,
{
    if parse_obj_tail(a, k, acc) is Some {
        if is_ws(a[k]) {
            lemma_obj_tail_extends(a, b, k + 1, acc);
        } else if a[k] == '}' && acc.len() == 0 {
        } else if a[k] == '"' {
            let (key, j) = parse_string_body(a, k + 1, Seq::empty()).unwrap();
            lemma_string_extends(a, b, k + 1, Seq::empty());
            lemma_string_advances(a, k + 1, Seq::empty());
            lemma_step_to_same(k, j, a.len() as int, (a + b).len() as int);
            lemma_colon_extends(a, b, step_to(k, j, a.len() as int), key, acc);
        }
    }
}

proof fn lemma_colon_extends(
    a: Seq<char>,
    b: Seq<char>,
    m: int,
    key: Seq<char>,
    acc: Seq<(Seq<char>, JsonV)>,
)
    ensures
        parse_colon(a, m, key, acc) matches Some(r) ==> parse_colon(a + b, m, key, acc) == Some(
            r,
        ),
    decreases a.len() - m, 2int,
{
    if parse_colon(a, m, key, acc) is Some {
        if is_ws(a[m]) {
            lemma_colon_extends(a, b, m + 1, key, acc);
        } else {
            lemma_member_val_extends(a, b, m + 1, key, acc);
        }
    }
}

proof fn lemma_member_val_extends(
    a: Seq<char>,
    b: Seq<char>,
    p: int,
    key: Seq<char>,
    acc: Seq<(Seq<char>, JsonV)>,
)
    ensures
        parse_member_val(a, p, key, acc) matches Some(r) ==> parse_member_val(a + b, p, key, acc)
            == Some(r),
    decreases a.len() - p, 2int,
{
    if parse_member_val(a, p, key, acc) is Some {
        if is_ws(a[p]) {
            lemma_member_val_extends(a, b, p + 1, key, acc);
        } else {
            let (v, j) = parse_value(a, p).unwrap();
            lemma_value_extends(a, b, p);
            lemma_value_advances(a, p);
            lemma_step_to_same(p, j, a.len() as int, (a + b).len() as int);
            lemma_obj_sep_extends(a, b, step_to(p, j, a.len() as int), acc.push((key, v)));
        }
    }
}

proof fn lemma_obj_sep_extends(a: Seq<char>, b: Seq<char>, m: int, acc: Seq<(Seq<char>, JsonV)>)
    ensures
        parse_obj_sep(a, m, acc) matches Some(r) ==> parse_obj_sep(a + b, m, acc) == Some(r),
    decreases a.len() - m, 2int,
{
    if parse_obj_sep(a, m, acc) is Some {
        if is_ws(a[m]) {
            lemma_obj_sep_extends(a, b, m + 1, acc);
        } else if a[m] == '}' {
        } else if a[m] == ',' {
            lemma_obj_tail_extends(a, b, m + 1, acc);
        }
    }
}

/// A successful sub-parse ends past where it began and inside the buffer.
pub proof fn lemma_value_advances(s: Seq<char>, i: int)
    ensures
        parse_value(s, i) matches Some((v, j)) ==> i < j <= s.len(),
    decreases s.len() - i, 1int,
{
    if parse_value(s, i) is Some {
        let c = s[i];
        if c == '"' {
            lemma_string_advances(s, i + 1, Seq::empty());
        } else if c == '-' || crate::json::is_digit(c) {
            lemma_num_end_advances(s, i + 1);
        } else if c == '[' {
            lemma_arr_tail_advances(s, i + 1, Seq::empty());
        } else if c == '{' {
            lemma_obj_tail_advances(s, i + 1, Seq::empty());
        }
    }
}

proof fn lemma_num_end_advances(s: Seq<char>, i: int)
    requires
        0 <= i <= s.len(),
    ensures
        i <= num_end(s, i) <= s.len(),
    decreases s.len() - i,
{
    if i < s.len() && crate::json::is_num_char(s[i]) {
        lemma_num_end_advances(s, i + 1);
    }
}

proof fn lemma_string_advances(s: Seq<char>, i: int, acc: Seq<char>)
    ensures
        parse_string_body(s, i, acc) matches Some((t, j)) ==> i < j <= s.len(),
    decreases s.len() - i,
{
    if parse_string_body(s, i, acc) is Some {
        let c = s[i];
        if c == '"' {
        } else if c == '\\' {
            let e = s[i + 1];
            if e == '"' || e == '\\' || e == '/' || e == 'b' || e == 'f' || e == 'n' || e == 'r'
                || e == 't' {
                let pushed = if e == '"' {
                    '"'
                } else if e == '\\' {
                    '\\'
                } else if e == '/' {
                    '/'
                } else if e == 'b' {
                    8u32 as char
                } else if e == 'f' {
                    12u32 as char
                } else if e == 'n' {
                    '\n'
                } else if e == 'r' {
                    '\r'
                } else {
                    '\t'
                };
                lemma_string_advances(s, i + 2, acc.push(pushed));
            } else {
                let cp = crate::json::hex_val(s[i + 2]) * 4096 + crate::json::hex_val(s[i + 3])
                    * 256 + crate::json::hex_val(s[i + 4]) * 16 + crate::json::hex_val(s[i + 5]);
                if 0xD800 <= cp < 0xDC00 {
                    let lo = crate::json::hex_val(s[i + 8]) * 4096 + crate::json::hex_val(
                        s[i + 9],
                    ) * 256 + crate::json::hex_val(s[i + 10]) * 16 + crate::json::hex_val(
                        s[i + 11],
                    );
                    let combined = 0x10000 + (cp - 0xD800) * 0x400 + (lo - 0xDC00);
                    lemma_string_advances(s, i + 12, acc.push(combined as u32 as char));
                } else {
                    lemma_string_advances(s, i + 6, acc.push(cp as u32 as char));
                }
            }
        } else {
            lemma_string_advances(s, i + 1, acc.push(c));
        }
    }
}

proof fn lemma_arr_tail_advances(s: Seq<char>, k: int, acc: Seq<JsonV>)
    ensures
        parse_arr_tail(s, k, acc) matches Some((es, j)) ==> k < j <= s.len(),
    decreases s.len() - k, 2int,
{
    if parse_arr_tail(s, k, acc) is Some {
        if is_ws(s[k]) {
            lemma_arr_tail_advances(s, k + 1, acc);
        } else if s[k] == ']' && acc.len() == 0 {
        } else {
            let (v, j) = parse_value(s, k).unwrap();
            lemma_arr_sep_advances(s, step_to(k, j, s.len() as int), acc.push(v));
        }
    }
}

proof fn lemma_arr_sep_advances(s: Seq<char>, m: int, acc: Seq<JsonV>)
    ensures
        parse_arr_sep(s, m, acc) matches Some((es, j)) ==> m < j <= s.len(),
    decreases s.len() - m, 2int,
{
    if parse_arr_sep(s, m, acc) is Some {
        if is_ws(s[m]) {
            lemma_arr_sep_advances(s, m + 1, acc);
        } else if s[m] == ']' {
        } else if s[m] == ',' {
            lemma_arr_tail_advances(s, m + 1, acc);
        }
    }
}

proof fn lemma_obj_tail_advances(s: Seq<char>, k: int, acc: Seq<(Seq<char>, JsonV)>)
    ensures
        parse_obj_tail(s, k, acc) matches Some((ms, j)) ==> k < j <= s.len(),
    decreases s.len() - k, 2int,
{
    if parse_obj_tail(s, k, acc) is Some {
        if is_ws(s[k]) {
            lemma_obj_tail_advances(s, k + 1, acc);
        } else if s[k] == '}' && acc.len() == 0 {
        } else if s[k] == '"' {
            let (key, j) = parse_string_body(s, k + 1, Seq::empty()).unwrap();
            lemma_colon_advances(s, step_to(k, j, s.len() as int), key, acc);
        }
    }
}

proof fn lemma_colon_advances(s: Seq<char>, m: int, key: Seq<char>, acc: Seq<(Seq<char>, JsonV)>)
    ensures
        parse_colon(s, m, key, acc) matches Some((ms, j)) ==> m < j <= s.len(),
    decreases s.len() - m, 2int,
{
    if parse_colon(s, m, key, acc) is Some {
        if is_ws(s[m]) {
            lemma_colon_advances(s, m + 1, key, acc);
        } else {
            lemma_member_val_advances(s, m + 1, key, acc);
        }
    }
}

proof fn lemma_member_val_advances(
    s: Seq<char>,
    p: int,
    key: Seq<char>,
    acc: Seq<(Seq<char>, JsonV)>,
)
    ensures
        parse_member_val(s, p, key, acc) matches Some((ms, j)) ==> p < j <= s.len(),
    decreases s.len() - p, 2int,
{
    if parse_member_val(s, p, key, acc) is Some {
        if is_ws(s[p]) {
            lemma_member_val_advances(s, p + 1, key, acc);
        } else {
            let (v, j) = parse_value(s, p).unwrap();
            lemma_obj_sep_advances(s, step_to(p, j, s.len() as int), acc.push((key, v)));
        }
    }
}

proof fn lemma_obj_sep_advances(s: Seq<char>, m: int, acc: Seq<(Seq<char>, JsonV)>)
    ensures
        parse_obj_sep(s, m, acc) matches Some((ms, j)) ==> m < j <= s.len(),
    decreases s.len() - m, 2int,
{
    if parse_obj_sep(s, m, acc) is Some {
        if is_ws(s[m]) {
            lemma_obj_sep_advances(s, m + 1, acc);
        } else if s[m] == '}' {
        } else if s[m] == ',' {
            lemma_obj_tail_advances(s, m + 1, acc);
        }
    }
}

/// Shifts a sub-parse result by the dropped prefix's length.
pub open spec fn shift_val(r: Option<(JsonV, int)>, d: int) -> Option<(JsonV, int)> {
    match r {
        None => None,
        Some((v, j)) => Some((v, j + d)),
    }
}

proof fn lemma_num_end_shift(s: Seq<char>, d: int, i: int)
    requires
        0 <= d <= i,
        d <= s.len(),
    ensures
        num_end(s, i) == num_end(s.skip(d), i - d) + d,
    decreases s.len() - i,
{
    if 0 <= i < s.len() && crate::json::is_num_char(s[i]) {
        lemma_num_end_shift(s, d, i + 1);
    }
}

proof fn lemma_number_shift(s: Seq<char>, d: int, i: int)
    requires
        0 <= d <= i,
        d <= s.len(),
    ensures
        parse_number(s, i) == shift_val(parse_number(s.skip(d), i - d), d),
{
    lemma_num_end_shift(s, d, i);
    lemma_num_end_advances2(s, i);
    let e = num_end(s, i);
    if i <= s.len() && e < s.len() {
        assert(s.subrange(i, e) =~= s.skip(d).subrange(i - d, e - d));
    }
}

/// As `lemma_num_end_advances`, stated without an upper bound on `i`.
proof fn lemma_num_end_advances2(s: Seq<char>, i: int)
    requires
        0 <= i,
    ensures
        i <= num_end(s, i),
        i <= s.len() ==> num_end(s, i) <= s.len(),
        i > s.len() ==> num_end(s, i) == i,
    decreases s.len() - i,
{
    if 0 <= i < s.len() && crate::json::is_num_char(s[i]) {
        lemma_num_end_advances2(s, i + 1);
    }
}

proof fn lemma_string_shift(s: Seq<char>, d: int, i: int, acc: Seq<char>)
    requires
        d <= s.len(),
        0 <= d <= i,
    ensures
        ({
            let r = parse_string_body(s.skip(d), i - d, acc);
            parse_string_body(s, i, acc) == (match r {
                None => None::<(Seq<char>, int)>,
                Some((t, j)) => Some((t, j + d)),
            })
        }),
    decreases s.len() - i,
{
    if 0 <= i < s.len() {
        let c = s[i];
        if c == '"' {
        } else if c == '\\' {
            if i + 1 < s.len() {
                let e = s[i + 1];
                if e == '"' || e == '\\' || e == '/' || e == 'b' || e == 'f' || e == 'n' || e
                    == 'r' || e == 't' {
                    let pushed = if e == '"' {
                        '"'
                    } else if e == '\\' {
                        '\\'
                    } else if e == '/' {
                        '/'
                    } else if e == 'b' {
                        8u32 as char
                    } else if e == 'f' {
                        12u32 as char
                    } else if e == 'n' {
                        '\n'
                    } else if e == 'r' {
                        '\r'
                    } else {
                        '\t'
                    };
                    lemma_string_shift(s, d, i + 2, acc.push(pushed));
                } else if e == 'u' {
                    if i + 6 <= s.len() && crate::json::is_hex(s[i + 2]) && crate::json::is_hex(
                        s[i + 3],
                    ) && crate::json::is_hex(s[i + 4]) && crate::json::is_hex(s[i + 5]) {
                        let cp = crate::json::hex_val(s[i + 2]) * 4096 + crate::json::hex_val(
                            s[i + 3],
                        ) * 256 + crate::json::hex_val(s[i + 4]) * 16 + crate::json::hex_val(
                            s[i + 5],
                        );
                        if 0xD800 <= cp < 0xDC00 {
                            if i + 12 <= s.len() && s[i + 6] == '\\' && s[i + 7] == 'u'
                                && crate::json::is_hex(s[i + 8]) && crate::json::is_hex(s[i + 9])
                                && crate::json::is_hex(s[i + 10]) && crate::json::is_hex(
                                s[i + 11],
                            ) {
                                let lo = crate::json::hex_val(s[i + 8]) * 4096
                                    + crate::json::hex_val(s[i + 9]) * 256 + crate::json::hex_val(
                                    s[i + 10],
                                ) * 16 + crate::json::hex_val(s[i + 11]);
                                if 0xDC00 <= lo < 0xE000 {
                                    let combined = 0x10000 + (cp - 0xD800) * 0x400 + (lo - 0xDC00);
                                    lemma_string_shift(
                                        s,
                                        d,
                                        i + 12,
                                        acc.push(combined as u32 as char),
                                    );
                                }
                            }
                        } else if 0xDC00 <= cp < 0xE000 {
                        } else {
                            lemma_string_shift(s, d, i + 6, acc.push(cp as u32 as char));
                        }
                    }
                }
            }
        } else if (c as u32) < 32 {
        } else {
            lemma_string_shift(s, d, i + 1, acc.push(c));
        }
    }
}

/// Parsing does not look before the position it starts at: dropping a
/// prefix shifts the result and nothing else.
pub proof fn lemma_value_shift(s: Seq<char>, d: int, i: int)
    requires
        d <= s.len(),
        0 <= d <= i,
    ensures
        parse_value(s, i) == shift_val(parse_value(s.skip(d), i - d), d),
    decreases s.len() - i, 1int,
{
    if 0 <= i < s.len() {
        let c = s[i];
        if c == '"' {
            lemma_string_shift(s, d, i + 1, Seq::empty());
        } else if c == '-' || crate::json::is_digit(c) {
            lemma_number_shift(s, d, i);
        } else if c == '[' {
            lemma_arr_tail_shift(s, d, i + 1, Seq::empty());
        } else if c == '{' {
            lemma_obj_tail_shift(s, d, i + 1, Seq::empty());
        }
    }
}

pub proof fn lemma_step_to_shift(lo: int, j: int, n: int, d: int)
    ensures
        step_to(lo, j, n) == step_to(lo - d, j - d, n - d) + d,
{
}

proof fn lemma_arr_tail_shift(s: Seq<char>, d: int, k: int, acc: Seq<JsonV>)
    requires
        d <= s.len(),
        0 <= d <= k,
    ensures
        ({
            let r = parse_arr_tail(s.skip(d), k - d, acc);
            parse_arr_tail(s, k, acc) == (match r {
                None => None::<(Seq<JsonV>, int)>,
                Some((es, j)) => Some((es, j + d)),
            })
        }),
    decreases s.len() - k, 2int,
{
    if 0 <= k < s.len() {
        if is_ws(s[k]) {
            lemma_arr_tail_shift(s, d, k + 1, acc);
        } else if s[k] == ']' && acc.len() == 0 {
        } else {
            lemma_value_shift(s, d, k);
            match parse_value(s, k) {
                None => {},
                Some((v, j)) => {
                    lemma_step_to_shift(k, j, s.len() as int, d);
                    lemma_arr_sep_shift(s, d, step_to(k, j, s.len() as int), acc.push(v));
                },
            }
        }
    }
}

proof fn lemma_arr_sep_shift(s: Seq<char>, d: int, m: int, acc: Seq<JsonV>)
    requires
        d <= s.len(),
        0 <= d <= m,
    ensures
        ({
            let r = parse_arr_sep(s.skip(d), m - d, acc);
            parse_arr_sep(s, m, acc) == (match r {
                None => None::<(Seq<JsonV>, int)>,
                Some((es, j)) => Some((es, j + d)),
            })
        }),
    decreases s.len() - m, 2int,
{
    if 0 <= m < s.len() {
        if is_ws(s[m]) {
            lemma_arr_sep_shift(s, d, m + 1, acc);
        } else if s[m] == ']' {
        } else if s[m] == ',' {
            lemma_arr_tail_shift(s, d, m + 1, acc);
        }
    }
}

proof fn lemma_obj_tail_shift(s: Seq<char>, d: int, k: int, acc: Seq<(Seq<char>, JsonV)>)
    requires
        d <= s.len(),
        0 <= d <= k,
    ensures
        ({
            let r = parse_obj_tail(s.skip(d), k - d, acc);
            parse_obj_tail(s, k, acc) == (match r {
                None => None::<(Seq<(Seq<char>, JsonV)>, int)>,
                Some((ms, j)) => Some((ms, j + d)),
            })
        }),
    decreases s.len() - k, 2int,
{
    if 0 <= k < s.len() {
        if is_ws(s[k]) {
            lemma_obj_tail_shift(s, d, k + 1, acc);
        } else if s[k] == '}' && acc.len() == 0 {
        } else if s[k] == '"' {
            lemma_string_shift(s, d, k + 1, Seq::empty());
            match parse_string_body(s, k + 1, Seq::empty()) {
                None => {},
                Some((key, j)) => {
                    lemma_step_to_shift(k, j, s.len() as int, d);
                    lemma_colon_shift(s, d, step_to(k, j, s.len() as int), key, acc);
                },
            }
        }
    }
}

proof fn lemma_colon_shift(
    s: Seq<char>,
    d: int,
    m: int,
    key: Seq<char>,
    acc: Seq<(Seq<char>, JsonV)>,
)
    requires
        d <= s.len(),
        0 <= d <= m,
    ensures
        ({
            let r = parse_colon(s.skip(d), m - d, key, acc);
            parse_colon(s, m, key, acc) == (match r {
                None => None::<(Seq<(Seq<char>, JsonV)>, int)>,
                Some((ms, j)) => Some((ms, j + d)),
            })
        }),
    decreases s.len() - m, 2int,
{
    if 0 <= m < s.len() {
        if is_ws(s[m]) {
            lemma_colon_shift(s, d, m + 1, key, acc);
        } else if s[m] == ':' {
            lemma_member_val_shift(s, d, m + 1, key, acc);
        }
    }
}

proof fn lemma_member_val_shift(
    s: Seq<char>,
    d: int,
    p: int,
    key: Seq<char>,
    acc: Seq<(Seq<char>, JsonV)>,
)
    requires
        d <= s.len(),
        0 <= d <= p,
    ensures
        ({
            let r = parse_member_val(s.skip(d), p - d, key, acc);
            parse_member_val(s, p, key, acc) == (match r {
                None => None::<(Seq<(Seq<char>, JsonV)>, int)>,
                Some((ms, j)) => Some((ms, j + d)),
            })
        }),
    decreases s.len() - p, 2int,
{
    if 0 <= p < s.len() {
        if is_ws(s[p]) {
            lemma_member_val_shift(s, d, p + 1, key, acc);
        } else {
            lemma_value_shift(s, d, p);
            match parse_value(s, p) {
                None => {},
                Some((v, j)) => {
                    lemma_step_to_shift(p, j, s.len() as int, d);
                    lemma_obj_sep_shift(s, d, step_to(p, j, s.len() as int), acc.push((key, v)));
                },
            }
        }
    }
}

proof fn lemma_obj_sep_shift(s: Seq<char>, d: int, m: int, acc: Seq<(Seq<char>, JsonV)>)
    requires
        d <= s.len(),
        0 <= d <= m,
    ensures
        ({
            let r = parse_obj_sep(s.skip(d), m - d, acc);
            parse_obj_sep(s, m, acc) == (match r {
                None => None::<(Seq<(Seq<char>, JsonV)>, int)>,
                Some((ms, j)) => Some((ms, j + d)),
            })
        }),
    decreases s.len() - m, 2int,
{
    if 0 <= m < s.len() {
        if is_ws(s[m]) {
            lemma_obj_sep_shift(s, d, m + 1, acc);
        } else if s[m] == '}' {
        } else if s[m] == ',' {
            lemma_obj_tail_shift(s, d, m + 1, acc);
        }
    }
}

/// Whitespace skipping stays inside the buffer.
pub proof fn lemma_skip_ws_bounds(s: Seq<char>, i: int)
    requires
        0 <= i <= s.len(),
    ensures
        i <= skip_ws(s, i) <= s.len(),
    decreases s.len() - i,
{
    if i < s.len() && is_ws(s[i]) {
        lemma_skip_ws_bounds(s, i + 1);
    }
}

/// Whitespace skipping that stops inside the buffer stops at the same place
/// in any extension.
pub proof fn lemma_skip_ws_extends(a: Seq<char>, b: Seq<char>, i: int)
    requires
        0 <= i,
        skip_ws(a, i) < a.len(),
    ensures
        skip_ws(a + b, i) == skip_ws(a, i),
    decreases a.len() - i,
{
    if i < a.len() && is_ws(a[i]) {
        lemma_skip_ws_extends(a, b, i + 1);
    }
}

/// Whitespace skipping does not look before where it starts.
pub proof fn lemma_skip_ws_shift(s: Seq<char>, d: int, i: int)
    requires
        0 <= d <= i,
        d <= s.len(),
    ensures
        skip_ws(s, i) == skip_ws(s.skip(d), i - d) + d,
    decreases s.len() - i,
{
    if 0 <= i < s.len() && is_ws(s[i]) {
        lemma_skip_ws_shift(s, d, i + 1);
    }
}

} // verus!
