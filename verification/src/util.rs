//! Small string utilities: trusted one-call wrappers around std string
//! conversions, and verified helpers for comparison, substring search and
//! decimal formatting.

use vstd::prelude::*;

verus! {

use vstd::string::StrSliceExecFns;

/// Relies on String::push: appends exactly one character to the string.
#[verifier::external_body]
pub(crate) fn push_char(s: &mut String, c: char)
    ensures
        final(s)@ == old(s)@.push(c),
{
    s.push(c);
}

/// Relies on str::chars: iterates the characters of the string in order.
#[verifier::external_body]
pub(crate) fn str_chars(s: &str) -> (r: Vec<char>)
    ensures
        r@ == s@,
{
    s.chars().collect()
}

/// Relies on char::from_u32: `Some` exactly for Unicode scalar values, that
/// is, code points outside the surrogate range.
#[verifier::external_body]
pub(crate) fn char_of_u32(u: u32) -> (r: Option<char>)
    ensures
        vstd::utf8::is_scalar(u) ==> r == Some(u as char),
        !vstd::utf8::is_scalar(u) ==> r is None,
{
    char::from_u32(u)
}

/// Relies on String::from_utf8: `Ok` exactly for valid UTF-8, and the
/// decoding of the bytes when it is.
#[verifier::external_body]
pub(crate) fn utf8_string(b: &Vec<u8>) -> (r: Option<String>)
    ensures
        vstd::utf8::valid_utf8(b@) ==> r is Some && r.unwrap()@ == vstd::utf8::decode_utf8(b@),
        !vstd::utf8::valid_utf8(b@) ==> r is None,
{
    String::from_utf8(b.clone()).ok()
}

/// Whether the characters of `a` equal those of `b`.
pub fn str_eq(a: &str, b: &str) -> (r: bool)
    ensures
        r == (a@ == b@),
{
    let an = a.unicode_len();
    let bn = b.unicode_len();
    if an != bn {
        assert(a@ =~= b@ ==> a@.len() == b@.len());
        return false;
    }
    let mut i: usize = 0;
    while i < an
        invariant
            an == a@.len(),
            an == b@.len(),
            i <= an,
            forall|k: int| 0 <= k < i ==> a@[k] == b@[k],
        decreases an - i,
    {
        if a.get_char(i) != b.get_char(i) {
            assert(a@[i as int] != b@[i as int]);
            return false;
        }
        i = i + 1;
    }
    assert(a@ =~= b@);
    true
}

/// `needle` occurs as a contiguous run inside `hay`.
pub open spec fn has_substr(hay: Seq<char>, needle: Seq<char>) -> bool {
    exists|k: int|
        0 <= k && k + needle.len() <= hay.len() && #[trigger] hay.subrange(k, k + needle.len())
            == needle
}

/// Whether `needle` occurs as a substring of `hay`, by characters.
pub fn contains_sub(hay: &str, needle: &str) -> (r: bool)
    ensures
        r == has_substr(hay@, needle@),
{
    let hn = hay.unicode_len();
    let nn = needle.unicode_len();
    if nn > hn {
        assert(!has_substr(hay@, needle@));
        return false;
    }
    if nn == 0 {
        proof {
            assert(hay@.subrange(0, 0 + needle@.len() as int) =~= needle@);
        }
        return true;
    }
    let mut k: usize = 0;
    while k <= hn - nn
        invariant
            hn == hay@.len(),
            nn == needle@.len(),
            nn <= hn,
            1 <= nn,
            k <= hn - nn + 1,
            forall|k0: int|
                0 <= k0 < k ==> #[trigger] hay@.subrange(k0, k0 + needle@.len()) != needle@,
        decreases hn - nn + 1 - k,
    {
        let mut i: usize = 0;
        let mut matched = true;
        while matched && i < nn
            invariant
                hn == hay@.len(),
                nn == needle@.len(),
                k + nn <= hn,
                i <= nn,
                matched ==> forall|j: int| 0 <= j < i ==> hay@[k + j] == needle@[j],
                !matched ==> hay@.subrange(k as int, k + needle@.len()) != needle@,
            decreases nn - i + (if matched { 1int } else { 0int }),
        {
            if hay.get_char(k + i) != needle.get_char(i) {
                matched = false;
                assert(hay@[k + i] != needle@[i as int]);
                assert(hay@.subrange(k as int, k + needle@.len())[i as int] == hay@[k + i]);
                assert(hay@.subrange(k as int, k + needle@.len()) != needle@);
            } else {
                i = i + 1;
            }
        }
        if matched {
            assert(hay@.subrange(k as int, k + needle@.len()) =~= needle@);
            return true;
        }
        k = k + 1;
    }
    assert(forall|k0: int|
        0 <= k0 && k0 + needle@.len() <= hay@.len() ==> #[trigger] hay@.subrange(
            k0,
            k0 + needle@.len(),
        ) != needle@);
    false
}

/// The decimal digit character for a value below ten.
pub open spec fn digit_char(d: int) -> char {
    if d == 0 {
        '0'
    } else if d == 1 {
        '1'
    } else if d == 2 {
        '2'
    } else if d == 3 {
        '3'
    } else if d == 4 {
        '4'
    } else if d == 5 {
        '5'
    } else if d == 6 {
        '6'
    } else if d == 7 {
        '7'
    } else if d == 8 {
        '8'
    } else {
        '9'
    }
}

/// The decimal digit string of a non-negative number, most significant first.
pub open spec fn dec_text(n: nat) -> Seq<char>
    decreases n,
{
    if n < 10 {
        seq![digit_char(n as int)]
    } else {
        dec_text(n / 10) + seq![digit_char((n % 10) as int)]
    }
}

/// The decimal text of an integer, with a leading minus sign when negative.
pub open spec fn int_text(i: int) -> Seq<char> {
    if i < 0 {
        seq!['-'] + dec_text((-i) as nat)
    } else {
        dec_text(i as nat)
    }
}

fn digit_of(d: u64) -> (c: char)
    requires
        d < 10,
    ensures
        c == digit_char(d as int),
{
    if d == 0 {
        '0'
    } else if d == 1 {
        '1'
    } else if d == 2 {
        '2'
    } else if d == 3 {
        '3'
    } else if d == 4 {
        '4'
    } else if d == 5 {
        '5'
    } else if d == 6 {
        '6'
    } else if d == 7 {
        '7'
    } else if d == 8 {
        '8'
    } else {
        '9'
    }
}

fn push_dec(s: &mut String, n: u64)
    ensures
        final(s)@ == old(s)@ + dec_text(n as nat),
    decreases n,
{
    if n < 10 {
        let c = digit_of(n);
        push_char(s, c);
    } else {
        push_dec(s, n / 10);
        let c = digit_of(n % 10);
        push_char(s, c);
        assert(s@ =~= old(s)@ + dec_text(n as nat));
    }
}

/// Appends the decimal text of a non-negative number.
pub fn u64_append(s: &mut String, n: u64)
    ensures
        final(s)@ == old(s)@ + dec_text(n as nat),
{
    push_dec(s, n);
}

/// The decimal text of a non-negative number.
pub fn u64_string(n: u64) -> (r: String)
    ensures
        r@ == dec_text(n as nat),
{
    let mut s = String::new();
    push_dec(&mut s, n);
    assert(s@ =~= dec_text(n as nat));
    s
}

/// The decimal text of an integer, with a minus sign when negative.
pub fn i64_string(n: i64) -> (r: String)
    ensures
        r@ == int_text(n as int),
{
    if n < 0 {
        let mut s = String::new();
        push_char(&mut s, '-');
        let m: u64 = if n == i64::MIN {
            9223372036854775808u64
        } else {
            (-n) as u64
        };
        assert(m == -(n as int));
        push_dec(&mut s, m);
        assert(s@ =~= int_text(n as int));
        s
    } else {
        let r = u64_string(n as u64);
        r
    }
}

/// The hexadecimal digit character for a value below sixteen.
pub open spec fn hex_char(d: int) -> char {
    if d < 10 {
        digit_char(d)
    } else if d == 10 {
        'a'
    } else if d == 11 {
        'b'
    } else if d == 12 {
        'c'
    } else if d == 13 {
        'd'
    } else if d == 14 {
        'e'
    } else {
        'f'
    }
}

/// How one character is written inside a JSON string literal: quote,
/// backslash and the short control escapes by name, other control
/// characters as four-digit escapes, everything else as itself.
pub open spec fn escape_char(c: char) -> Seq<char> {
    if c == '"' {
        seq!['\\', '"']
    } else if c == '\\' {
        seq!['\\', '\\']
    } else if c as u32 == 8 {
        seq!['\\', 'b']
    } else if c as u32 == 12 {
        seq!['\\', 'f']
    } else if c == '\n' {
        seq!['\\', 'n']
    } else if c == '\r' {
        seq!['\\', 'r']
    } else if c == '\t' {
        seq!['\\', 't']
    } else if (c as u32) < 32 {
        seq!['\\', 'u', '0', '0', hex_char(c as int / 16), hex_char(c as int % 16)]
    } else {
        seq![c]
    }
}

/// A string's characters written inside a JSON string literal.
pub open spec fn escape_json(s: Seq<char>) -> Seq<char>
    decreases s.len(),
{
    if s.len() == 0 {
        Seq::empty()
    } else {
        escape_char(s[0]) + escape_json(s.subrange(1, s.len() as int))
    }
}

pub(crate) fn hex_of(d: u32) -> (c: char)
    requires
        d < 16,
    ensures
        c == hex_char(d as int),
{
    if d == 0 {
        '0'
    } else if d == 1 {
        '1'
    } else if d == 2 {
        '2'
    } else if d == 3 {
        '3'
    } else if d == 4 {
        '4'
    } else if d == 5 {
        '5'
    } else if d == 6 {
        '6'
    } else if d == 7 {
        '7'
    } else if d == 8 {
        '8'
    } else if d == 9 {
        '9'
    } else if d == 10 {
        'a'
    } else if d == 11 {
        'b'
    } else if d == 12 {
        'c'
    } else if d == 13 {
        'd'
    } else if d == 14 {
        'e'
    } else {
        'f'
    }
}

/// Appends one character in its JSON string escape form.
pub(crate) fn push_escaped(s: &mut String, c: char)
    ensures
        final(s)@ == old(s)@ + escape_char(c),
{
    if c == '"' {
        push_char(s, '\\');
        push_char(s, '"');
        assert(s@ =~= old(s)@ + escape_char(c));
    } else if c == '\\' {
        push_char(s, '\\');
        push_char(s, '\\');
        assert(s@ =~= old(s)@ + escape_char(c));
    } else if c as u32 == 8 {
        push_char(s, '\\');
        push_char(s, 'b');
        assert(s@ =~= old(s)@ + escape_char(c));
    } else if c as u32 == 12 {
        push_char(s, '\\');
        push_char(s, 'f');
        assert(s@ =~= old(s)@ + escape_char(c));
    } else if c == '\n' {
        push_char(s, '\\');
        push_char(s, 'n');
        assert(s@ =~= old(s)@ + escape_char(c));
    } else if c == '\r' {
        push_char(s, '\\');
        push_char(s, 'r');
        assert(s@ =~= old(s)@ + escape_char(c));
    } else if c == '\t' {
        push_char(s, '\\');
        push_char(s, 't');
        assert(s@ =~= old(s)@ + escape_char(c));
    } else if (c as u32) < 32 {
        push_char(s, '\\');
        push_char(s, 'u');
        push_char(s, '0');
        push_char(s, '0');
        let hi = hex_of((c as u32) / 16);
        push_char(s, hi);
        let lo = hex_of((c as u32) % 16);
        push_char(s, lo);
        assert(s@ =~= old(s)@ + escape_char(c));
    } else {
        push_char(s, c);
        assert(s@ =~= old(s)@ + escape_char(c));
    }
}

/// Appends a string in its JSON string escape form.
#[verifier::loop_isolation(false)]
pub(crate) fn push_json_escaped(s: &mut String, text: &str)
    ensures
        final(s)@ == old(s)@ + escape_json(text@),
{
    let cs = str_chars(text);
    let mut i: usize = 0;
    proof {
        assert(cs@.subrange(0, cs@.len() as int) =~= cs@);
    }
    while i < cs.len()
        invariant
            i <= cs@.len(),
            old(s)@ + escape_json(cs@) == s@ + escape_json(
                cs@.subrange(i as int, cs@.len() as int),
            ),
        decreases cs@.len() - i,
    {
        let ghost rem = cs@.subrange(i as int, cs@.len() as int);
        proof {
            assert(rem[0] == cs@[i as int]);
            assert(rem.subrange(1, rem.len() as int) =~= cs@.subrange(
                i + 1,
                cs@.len() as int,
            ));
        }
        let c = cs[i];
        push_escaped(s, c);
        i = i + 1;
    }
    proof {
        assert(cs@.subrange(i as int, cs@.len() as int) =~= Seq::<char>::empty());
        assert(s@ + Seq::<char>::empty() =~= s@);
    }
}

} // verus!
