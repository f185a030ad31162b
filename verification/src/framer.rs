//! The stream framer: an accumulator of decoded text out of which complete
//! JSON values are carved as they arrive, however the transport happened to
//! split them. Consumed characters are dropped, the trailing remainder of an
//! incomplete value is kept verbatim for the next round, and a byte
//! assembler in front holds raw bytes back until the whole buffer is valid
//! UTF-8 (a multi-byte character can be split across frames too).

use vstd::prelude::*;
use crate::json::{
    jmodel,
    jmodels,
    parse_value,
    parse_value_at,
    skip_ws,
    step_to,
    Json,
    JsonV,
};
use crate::util::{str_chars, utf8_string};

verus! {

/// A clamped whitespace skip: equal to `skip_ws` wherever `i` lies inside
/// the buffer, and bounded so definitions over it stay well-founded.
pub open spec fn ws_to(s: Seq<char>, i: int) -> int {
    let w = skip_ws(s, i);
    if w < i {
        i
    } else if w > s.len() {
        s.len() as int
    } else {
        w
    }
}

/// The values that stand complete at the front of the buffer from position
/// `i`, and the watermark one past the last of them: whitespace, then one
/// value, repeatedly, stopping at the first position where no complete
/// value can be read yet.
pub open spec fn extract_at(s: Seq<char>, i: int) -> (Seq<JsonV>, int)
    decreases s.len() - i,
{
    if i < 0 || i > s.len() {
        (Seq::empty(), i)
    } else {
        let w = ws_to(s, i);
        if w >= s.len() {
            (Seq::empty(), i)
        } else {
            match parse_value(s, w) {
                None => (Seq::empty(), i),
                Some((v, j)) => {
                    let j2 = step_to(w, j, s.len() as int);
                    let (vs, c) = extract_at(s, j2);
                    (seq![v] + vs, c)
                },
            }
        }
    }
}

/// The character accumulator between the byte stream and the parser.
pub struct Framer {
    pending: Vec<char>,
}

impl Framer {
    /// The characters waiting for the rest of their value.
    pub closed spec fn pending_chars(&self) -> Seq<char> {
        self.pending@
    }

    /// An empty framer.
    pub fn new() -> (r: Framer)
        ensures
            r.pending_chars() == Seq::<char>::empty(),
    {
        Framer { pending: Vec::new() }
    }

    /// Appends one chunk of text and carves off every value that is now
    /// complete, in order; what follows the last of them stays pending.
    #[verifier::loop_isolation(false)]
    pub fn push_text(&mut self, chunk: &str) -> (r: Vec<Json>)
        ensures
            ({
                let s = old(self).pending_chars() + chunk@;
                let (vs, c) = extract_at(s, 0);
                &&& jmodels(r@) == vs
                &&& 0 <= c <= s.len()
                &&& final(self).pending_chars() == s.subrange(c, s.len() as int)
            }),
    {
        let mut extra = str_chars(chunk);
        self.pending.append(&mut extra);
        let ghost s = self.pending@;
        let ghost goal = extract_at(s, 0);
        proof {
            lemma_extract_consumed(s, 0);
        }
        let mut out: Vec<Json> = Vec::new();
        let mut i: usize = 0;
        proof {
            assert(jmodels(out@) =~= Seq::<JsonV>::empty());
            assert(Seq::<JsonV>::empty() + extract_at(s, 0).0 =~= extract_at(s, 0).0);
        }
        loop
            invariant
                i <= s.len(),
                s == self.pending@,
                goal == extract_at(s, 0),
                goal.0 == jmodels(out@) + extract_at(s, i as int).0,
                goal.1 == extract_at(s, i as int).1,
            decreases s.len() - i,
        {
            let mut w: usize = i;
            while w < self.pending.len() && crate::json::json_ws(self.pending[w])
                invariant
                    i <= w <= s.len(),
                    skip_ws(s, i as int) == skip_ws(s, w as int),
                decreases s.len() - w,
            {
                w = w + 1;
            }
            assert(skip_ws(s, w as int) == w);
            assert(ws_to(s, i as int) == w);
            if w >= self.pending.len() {
                break ;
            }
            match parse_value_at(&self.pending, w) {
                None => {
                    break ;
                },
                Some((v, j)) => {
                    let ghost pre = jmodels(out@);
                    proof {
                        assert(step_to(w as int, j as int, s.len() as int) == j);
                        lemma_extract_consumed(s, j as int);
                    }
                    out.push(v);
                    proof {
                        assert(jmodels(out@) =~= pre.push(jmodel(v)));
                        let rest = extract_at(s, j as int);
                        assert(pre + (seq![jmodel(v)] + rest.0) =~= pre.push(jmodel(v))
                            + rest.0);
                    }
                    i = j;
                },
            }
        }
        proof {
            assert(extract_at(s, i as int).0 =~= Seq::<JsonV>::empty());
            assert(jmodels(out@) + Seq::<JsonV>::empty() =~= jmodels(out@));
            assert(goal.1 == i as int);
        }
        let mut rest: Vec<char> = Vec::new();
        let mut k: usize = i;
        while k < self.pending.len()
            invariant
                i <= k <= s.len(),
                s == self.pending@,
                rest@ == s.subrange(i as int, k as int),
            decreases s.len() - k,
        {
            let c = self.pending[k];
            rest.push(c);
            proof {
                assert(rest@ =~= s.subrange(i as int, k + 1));
            }
            k = k + 1;
        }
        self.pending = rest;
        out
    }
}

/// The watermark an extraction reports stays inside the buffer and never
/// runs backwards.
pub proof fn lemma_extract_consumed(s: Seq<char>, i: int)
    requires
        0 <= i <= s.len(),
    ensures
        i <= extract_at(s, i).1 <= s.len(),
    decreases s.len() - i,
{
    let w = ws_to(s, i);
    if w < s.len() {
        match parse_value(s, w) {
            None => {},
            Some((v, j)) => {
                let j2 = step_to(w, j, s.len() as int);
                lemma_extract_consumed(s, j2);
            },
        }
    }
}

/// Extraction from a prefix is a prefix of extraction from the whole: the
/// values carved out of `a` are carved out of `a + b` too, in the same
/// order, and `a + b` continues exactly where `a`'s watermark stopped. No
/// value is lost or read twice at a chunk boundary.
pub proof fn lemma_extract_extends(a: Seq<char>, b: Seq<char>, i: int)
    requires
        0 <= i <= a.len(),
    ensures
        ({
            let (va, ca) = extract_at(a, i);
            let (vt, ct) = extract_at(a + b, ca);
            extract_at(a + b, i) == (va + vt, ct)
        }),
    decreases a.len() - i,
{
    let (va, ca) = extract_at(a, i);
    let w = ws_to(a, i);
    crate::json_lemmas::lemma_skip_ws_bounds(a, i);
    if w >= a.len() || parse_value(a, w) is None {
        assert(va =~= Seq::<JsonV>::empty());
        assert(ca == i);
        assert(va + extract_at(a + b, i).0 =~= extract_at(a + b, i).0);
    } else {
        let (v, j) = parse_value(a, w).unwrap();
        crate::json_lemmas::lemma_skip_ws_extends(a, b, i);
        crate::json_lemmas::lemma_value_extends(a, b, w);
        crate::json_lemmas::lemma_value_advances(a, w);
        crate::json_lemmas::lemma_step_to_same(w, j, a.len() as int, (a + b).len() as int);
        let j2 = step_to(w, j, a.len() as int);
        lemma_extract_extends(a, b, j2);
        let (va2, ca2) = extract_at(a, j2);
        let (vt, ct) = extract_at(a + b, ca2);
        assert(seq![v] + (va2 + vt) =~= (seq![v] + va2) + vt);
    }
}

/// Extraction does not look before the position it starts at: dropping what
/// was already consumed shifts the result and nothing else.
pub proof fn lemma_extract_shift(s: Seq<char>, d: int, i: int)
    requires
        0 <= d <= i <= s.len(),
    ensures
        ({
            let (v, c) = extract_at(s.skip(d), i - d);
            extract_at(s, i) == (v, c + d)
        }),
    decreases s.len() - i,
{
    crate::json_lemmas::lemma_skip_ws_shift(s, d, i);
    crate::json_lemmas::lemma_skip_ws_bounds(s, i);
    crate::json_lemmas::lemma_skip_ws_bounds(s.skip(d), i - d);
    let w = ws_to(s, i);
    if w >= s.len() {
    } else {
        crate::json_lemmas::lemma_value_shift(s, d, w);
        match parse_value(s, w) {
            None => {},
            Some((v, j)) => {
                crate::json_lemmas::lemma_value_advances(s, w);
                crate::json_lemmas::lemma_step_to_shift(w, j, s.len() as int, d);
                let j2 = step_to(w, j, s.len() as int);
                lemma_extract_shift(s, d, j2);
            },
        }
    }
}

/// Law (framing round trip): the stream may be cut anywhere, including in
/// the middle of a value. Feeding two pieces one after the other through
/// the framer yields exactly the values of feeding them joined, in order,
/// with zero duplication and zero loss, and leaves the same remainder
/// pending.
pub proof fn lemma_framing_split(pending: Seq<char>, c1: Seq<char>, c2: Seq<char>)
    ensures
        ({
            let s1 = pending + c1;
            let (v1, k1) = extract_at(s1, 0);
            let s2 = s1.subrange(k1, s1.len() as int) + c2;
            let (v2, k2) = extract_at(s2, 0);
            let whole = pending + (c1 + c2);
            let (v, k) = extract_at(whole, 0);
            &&& v == v1 + v2
            &&& 0 <= k <= whole.len()
            &&& 0 <= k2 <= s2.len()
            &&& whole.subrange(k, whole.len() as int) == s2.subrange(k2, s2.len() as int)
        }),
{
    let s1 = pending + c1;
    let (v1, k1) = extract_at(s1, 0);
    lemma_extract_consumed(s1, 0);
    let whole = pending + (c1 + c2);
    assert(whole =~= s1 + c2);
    lemma_extract_extends(s1, c2, 0);
    lemma_extract_shift(whole, k1, k1);
    assert(whole.skip(k1) =~= s1.subrange(k1, s1.len() as int) + c2);
    let s2 = s1.subrange(k1, s1.len() as int) + c2;
    let (v2, k2) = extract_at(s2, 0);
    lemma_extract_consumed(s2, 0);
    let (v, k) = extract_at(whole, 0);
    assert(v == v1 + v2);
    assert(k == k2 + k1);
    assert(whole.subrange(k, whole.len() as int) =~= s2.subrange(k2, s2.len() as int));
}

/// `t` is the complete text of exactly the value `v`: it parses, consuming
/// every character. (A trailing bare number is never such a text: it could
/// still grow, so the framer rightly waits for what follows it.)
pub open spec fn value_text(t: Seq<char>, v: JsonV) -> bool {
    &&& t.len() > 0
    &&& !crate::json::is_ws(t[0])
    &&& parse_value(t, 0) == Some((v, t.len() as int))
}

/// The texts joined back to back, in order.
pub open spec fn concat_texts(ts: Seq<Seq<char>>) -> Seq<char>
    decreases ts.len(),
{
    if ts.len() == 0 {
        Seq::empty()
    } else {
        ts[0] + concat_texts(ts.subrange(1, ts.len() as int))
    }
}

/// A buffer holding complete value texts back to back extracts to exactly
/// their values, in order, consuming everything.
pub proof fn lemma_extract_of_concat(texts: Seq<Seq<char>>, vals: Seq<JsonV>)
    requires
        texts.len() == vals.len(),
        forall|k: int| 0 <= k < texts.len() ==> value_text(#[trigger] texts[k], vals[k]),
    ensures
        extract_at(concat_texts(texts), 0) == (vals, concat_texts(texts).len() as int),
    decreases texts.len(),
{
    let whole = concat_texts(texts);
    if texts.len() == 0 {
        assert(vals =~= Seq::<JsonV>::empty());
    } else {
        let t0 = texts[0];
        let v0 = vals[0];
        let rest = concat_texts(texts.subrange(1, texts.len() as int));
        assert(whole == t0 + rest);
        assert((t0 + rest)[0] == t0[0]);
        assert(ws_to(whole, 0) == 0);
        crate::json_lemmas::lemma_value_extends(t0, rest, 0);
        assert(parse_value(whole, 0) == Some((v0, t0.len() as int)));
        assert(step_to(0, t0.len() as int, whole.len() as int) == t0.len());
        lemma_extract_shift(whole, t0.len() as int, t0.len() as int);
        assert(whole.skip(t0.len() as int) =~= rest);
        lemma_extract_of_concat(texts.subrange(1, texts.len() as int), vals.subrange(
            1,
            vals.len() as int,
        ));
        assert(seq![v0] + vals.subrange(1, vals.len() as int) =~= vals);
    }
}

/// What feeding chunks one after the other through a framer yields: all the
/// values carved out, in order, and the characters left pending at the end.
pub open spec fn feed_all(pending: Seq<char>, chunks: Seq<Seq<char>>) -> (Seq<JsonV>, Seq<char>)
    decreases chunks.len(),
{
    if chunks.len() == 0 {
        (Seq::empty(), pending)
    } else {
        let s = pending + chunks[0];
        let (v, c) = extract_at(s, 0);
        let (vs, p) = feed_all(
            s.subrange(c, s.len() as int),
            chunks.subrange(1, chunks.len() as int),
        );
        (v + vs, p)
    }
}

/// Feeding a stream chunk by chunk yields exactly what feeding it whole in
/// one chunk yields, whatever the chunking.
pub proof fn lemma_feed_all_split(pending: Seq<char>, chunks: Seq<Seq<char>>)
    requires
        chunks.len() >= 1,
    ensures
        ({
            let (vs, p) = feed_all(pending, chunks);
            let whole = pending + concat_texts(chunks);
            let (v, c) = extract_at(whole, 0);
            &&& vs == v
            &&& 0 <= c <= whole.len()
            &&& p == whole.subrange(c, whole.len() as int)
        }),
    decreases chunks.len(),
{
    let c0 = chunks[0];
    let rest = chunks.subrange(1, chunks.len() as int);
    let s1 = pending + c0;
    let (v1, k1) = extract_at(s1, 0);
    lemma_extract_consumed(s1, 0);
    let p1 = s1.subrange(k1, s1.len() as int);
    let whole = pending + concat_texts(chunks);
    if chunks.len() == 1 {
        assert(concat_texts(rest) =~= Seq::<char>::empty());
        assert(c0 + Seq::<char>::empty() =~= c0);
        assert(whole =~= s1);
        assert(feed_all(p1, rest) == (Seq::<JsonV>::empty(), p1));
        assert(feed_all(pending, chunks).0 == v1 + Seq::<JsonV>::empty());
        assert(v1 + Seq::<JsonV>::empty() =~= v1);
        assert(extract_at(whole, 0) == extract_at(s1, 0));
        assert(feed_all(pending, chunks).1 == whole.subrange(
            extract_at(whole, 0).1,
            whole.len() as int,
        ));
    } else {
        let cr = concat_texts(rest);
        let whole2 = pending + (c0 + cr);
        assert(whole2 =~= whole);
        let s2 = p1 + cr;
        lemma_framing_split(pending, c0, cr);
        lemma_feed_all_split(p1, rest);
        assert(feed_all(pending, chunks).0 == v1 + feed_all(p1, rest).0);
        assert(feed_all(p1, rest).0 == extract_at(s2, 0).0);
        assert(extract_at(whole, 0).0 == v1 + extract_at(s2, 0).0);
        assert(feed_all(pending, chunks).1 == feed_all(p1, rest).1);
        assert(feed_all(p1, rest).1 == s2.subrange(extract_at(s2, 0).1, s2.len() as int));
        assert(whole.subrange(extract_at(whole, 0).1, whole.len() as int) == s2.subrange(
            extract_at(s2, 0).1,
            s2.len() as int,
        ));
    }
}

/// Law (framing round trip): any sequence of JSON values written back to
/// back and split into chunks at arbitrary byte positions — including in the
/// middle of a value — comes out of the framer as exactly those values, in
/// order, with zero duplication, zero loss, and nothing left pending.
pub proof fn lemma_framing_round_trip(
    texts: Seq<Seq<char>>,
    vals: Seq<JsonV>,
    chunks: Seq<Seq<char>>,
)
    requires
        chunks.len() >= 1,
        texts.len() == vals.len(),
        forall|k: int| 0 <= k < texts.len() ==> value_text(#[trigger] texts[k], vals[k]),
        concat_texts(chunks) == concat_texts(texts),
    ensures
        feed_all(Seq::empty(), chunks) == (vals, Seq::<char>::empty()),
{
    lemma_feed_all_split(Seq::empty(), chunks);
    lemma_extract_of_concat(texts, vals);
    let whole = Seq::empty() + concat_texts(chunks);
    assert(whole =~= concat_texts(texts));
    let (v, c) = extract_at(whole, 0);
    assert(whole.subrange(c, whole.len() as int) =~= Seq::<char>::empty());
}

/// The byte accumulator in front of the framer: raw decompressed bytes wait
/// here until the whole buffer decodes as UTF-8, so that a multi-byte
/// character split across frames is never handed out in halves.
pub struct TextAssembler {
    buf: Vec<u8>,
}

impl TextAssembler {
    /// The bytes not yet decodable.
    pub closed spec fn bytes(&self) -> Seq<u8> {
        self.buf@
    }

    /// An empty assembler.
    pub fn new() -> (r: TextAssembler)
        ensures
            r.bytes() == Seq::<u8>::empty(),
    {
        TextAssembler { buf: Vec::new() }
    }

    /// Appends one chunk. When everything held decodes as UTF-8, hands the
    /// decoded text out and keeps nothing; otherwise keeps it all for the
    /// next chunk.
    pub fn push_bytes(&mut self, chunk: &Vec<u8>) -> (r: Option<String>)
        ensures
            ({
                let whole = old(self).bytes() + chunk@;
                if vstd::utf8::valid_utf8(whole) {
                    &&& r matches Some(t) && t@ == vstd::utf8::decode_utf8(whole)
                    &&& final(self).bytes() == Seq::<u8>::empty()
                } else {
                    &&& r is None
                    &&& final(self).bytes() == whole
                }
            }),
    {
        let mut extra = chunk.clone();
        self.buf.append(&mut extra);
        match utf8_string(&self.buf) {
            Some(t) => {
                self.buf.clear();
                Some(t)
            },
            None => None,
        }
    }
}

} // verus!
