//! The streaming decompressor: a raw-deflate inflate state that lives for
//! the whole connection, fed one compressed frame at a time. Each frame gets
//! the four-byte empty-block marker appended so a sync-flushing peer's data
//! all comes out at once, and is inflated through a fixed scratch buffer
//! until the input is exhausted or no progress is possible. A chunk that
//! cannot be inflated is a recoverable, per-chunk fault.
//!
//! The inflate engine itself is flate2's and its state is opaque here, but
//! its work is deterministic: what one call consumes, writes and reports is
//! a function of the state and the buffers alone. Those results carry names
//! (`inflate_yield_of` and friends), the wrappers' contracts speak of them,
//! and `feed_run` folds them over a frame — so `Inflater::feed` pins its
//! whole output down to the named yields, and what those bytes mean is the
//! downstream framer's business.

use vstd::prelude::*;
use crate::framer::{extract_at, Framer, TextAssembler};
use crate::json::{jmodels, Json};

verus! {

#[verifier::external_type_specification]
#[verifier::external_body]
pub struct ExDecompress(flate2::Decompress);

#[verifier::external_type_specification]
#[verifier::external_body]
pub struct ExDecompressError(flate2::DecompressError);

/// The total bytes an inflate state has consumed since it was created.
pub uninterp spec fn total_in_of(d: flate2::Decompress) -> u64;

/// The total bytes an inflate state has produced since it was created.
pub uninterp spec fn total_out_of(d: flate2::Decompress) -> u64;

/// The bytes one sync-flush inflate call writes, given the state, the
/// remaining input, and the output buffer's size. Inflation is
/// deterministic, so this is a function of the arguments alone; what the
/// bytes are only running the decoder can tell.
pub uninterp spec fn inflate_yield_of(d: flate2::Decompress, input: Seq<u8>, cap: nat) -> Seq<u8>;

/// The state one sync-flush inflate call leaves behind, on the same
/// arguments.
pub uninterp spec fn inflate_next_of(
    d: flate2::Decompress,
    input: Seq<u8>,
    cap: nat,
) -> flate2::Decompress;

/// What one sync-flush inflate call reports when it does not fail, on the
/// same arguments.
pub uninterp spec fn inflate_status_of(
    d: flate2::Decompress,
    input: Seq<u8>,
    cap: nat,
) -> InflateStatus;

/// Whether one sync-flush inflate call fails, on the same arguments.
pub uninterp spec fn inflate_fails_of(d: flate2::Decompress, input: Seq<u8>, cap: nat) -> bool;

/// What one inflate call reported: progress is possible, no progress is
/// possible with the given buffers, or the deflate stream announced its end.
pub enum InflateStatus {
    Working,
    Stalled,
    Finished,
}

/// A decompression fault. The chunk it arose on is lost; the connection and
/// the accumulated state survive, and the next chunk is tried afresh.
#[derive(Debug, Clone, Copy, PartialEq, Eq, Structural)]
pub struct InflateError;

/// Relies on flate2's `Decompress::new`: a fresh inflate state, expecting a
/// zlib header or not as asked, whose byte counters start at zero.
#[verifier::external_body]
fn inflate_new(zlib_header: bool) -> (r: flate2::Decompress)
    ensures
        total_in_of(r) == 0,
        total_out_of(r) == 0,
{
    flate2::Decompress::new(zlib_header)
}

/// Relies on flate2's `Decompress::total_in`: the input byte counter.
#[verifier::external_body]
fn inflate_total_in(d: &flate2::Decompress) -> (r: u64)
    ensures
        r == total_in_of(*d),
{
    d.total_in()
}

/// Relies on flate2's `Decompress::total_out`: the output byte counter.
#[verifier::external_body]
fn inflate_total_out(d: &flate2::Decompress) -> (r: u64)
    ensures
        r == total_out_of(*d),
{
    d.total_out()
}

/// Relies on flate2's `Decompress::decompress` with a sync flush: a
/// deterministic step that reads some of the input past `offset` and writes
/// its yield to the front of `scratch`, never changing the buffer's length.
/// The two counters advance by exactly the bytes consumed and written, the
/// written prefix is the named yield, the state left behind is the named
/// next state, and the report and any fault are the named ones — all
/// functions of the state and buffers alone, as flate2's documentation and
/// source show.
#[verifier::external_body]
fn inflate_step(
    d: &mut flate2::Decompress,
    input: &Vec<u8>,
    offset: usize,
    scratch: &mut Vec<u8>,
) -> (r: Result<InflateStatus, flate2::DecompressError>)
    requires
        offset <= input@.len(),
    ensures
        final(scratch)@.len() == old(scratch)@.len(),
        total_in_of(*final(d)) >= total_in_of(*old(d)),
        total_in_of(*final(d)) - total_in_of(*old(d)) <= input@.len() - offset,
        total_out_of(*final(d)) >= total_out_of(*old(d)),
        total_out_of(*final(d)) - total_out_of(*old(d)) <= old(scratch)@.len(),
        *final(d) == inflate_next_of(
            *old(d),
            input@.skip(offset as int),
            old(scratch)@.len() as nat,
        ),
        total_out_of(*final(d)) - total_out_of(*old(d)) == inflate_yield_of(
            *old(d),
            input@.skip(offset as int),
            old(scratch)@.len() as nat,
        ).len(),
        final(scratch)@.subrange(
            0,
            total_out_of(*final(d)) - total_out_of(*old(d)),
        ) == inflate_yield_of(*old(d), input@.skip(offset as int), old(scratch)@.len() as nat),
        r is Err <==> inflate_fails_of(
            *old(d),
            input@.skip(offset as int),
            old(scratch)@.len() as nat,
        ),
        r matches Ok(st) ==> st == inflate_status_of(
            *old(d),
            input@.skip(offset as int),
            old(scratch)@.len() as nat,
        ),
{
    match d.decompress(&input[offset..], scratch.as_mut_slice(), flate2::FlushDecompress::Sync) {
        Ok(flate2::Status::Ok) => Ok(InflateStatus::Working),
        Ok(flate2::Status::BufError) => Ok(InflateStatus::Stalled),
        Ok(flate2::Status::StreamEnd) => Ok(InflateStatus::Finished),
        Err(e) => Err(e),
    }
}

/// A frame as the feed loop presents it to the decoder: the sync-flush
/// marker appended, so a flushing peer's data all comes out.
pub open spec fn marker_padded(chunk: Seq<u8>) -> Seq<u8> {
    chunk + seq![0x00u8, 0x00u8, 0xffu8, 0xffu8]
}

/// The feed loop's whole run over one padded frame, folded out of the named
/// per-call results: the bytes yielded in order, the state left behind, and
/// whether every call succeeded. One step is taken per iteration; the run
/// stops on a fault, on a reported stream end, when a call makes no
/// progress, or when the input is used up — exactly the loop's own exits.
/// (The consumed count is clamped into the step's own bounds, which the
/// wrappers guarantee it never leaves, so the fold is well founded whatever
/// the names denote.)
pub open spec fn feed_run(d: flate2::Decompress, input: Seq<u8>, offset: int, cap: nat) -> (
    Seq<u8>,
    flate2::Decompress,
    bool,
)
    decreases input.len() - offset, 0xffff_ffff_ffff_ffffu64 - total_out_of(d),
{
    if offset < 0 || offset >= input.len() {
        (Seq::empty(), d, true)
    } else {
        let rem = input.skip(offset);
        let next = inflate_next_of(d, rem, cap);
        let y = inflate_yield_of(d, rem, cap);
        let delta = total_in_of(next) - total_in_of(d);
        let consumed = if delta < 0 {
            0
        } else if delta > input.len() - offset {
            input.len() - offset
        } else {
            delta
        };
        if inflate_fails_of(d, rem, cap) {
            (y, next, false)
        } else if inflate_status_of(d, rem, cap) is Finished {
            (y, next, true)
        } else if consumed == 0 && total_out_of(next) <= total_out_of(d) {
            (y, next, true)
        } else if offset + consumed >= input.len() {
            (y, next, true)
        } else {
            let (ys, dend, ok) = feed_run(next, input, offset + consumed, cap);
            (y + ys, dend, ok)
        }
    }
}

/// The connection's inflate state. It is never reset while the connection
/// lives: the peer's compression dictionary spans frames.
pub struct Inflater {
    state: flate2::Decompress,
}

impl Inflater {
    /// The decoder state, for the contracts to speak of.
    pub closed spec fn inflate_state(&self) -> flate2::Decompress {
        self.state
    }

    /// A fresh raw-deflate inflater (the wire stream has no zlib header),
    /// its byte counters at zero.
    pub fn new() -> (r: Inflater)
        ensures
            total_in_of(r.inflate_state()) == 0,
            total_out_of(r.inflate_state()) == 0,
    {
        Inflater { state: inflate_new(false) }
    }

    /// Feeds one compressed frame, with the sync-flush marker appended, and
    /// pushes exactly the run's yields onto `out`, in order; the state moves
    /// to the run's end, and the result is a fault exactly when a call of
    /// the run faulted. On a fault the yields that came before it stay
    /// appended, and the inflate state is kept for the next frame.
    #[verifier::loop_isolation(false)]
    pub fn feed(&mut self, chunk: &Vec<u8>, out: &mut Vec<u8>) -> (r: Result<(), InflateError>)
        ensures
            ({
                let run = feed_run(old(self).inflate_state(), marker_padded(chunk@), 0, 32768);
                &&& final(out)@ == old(out)@ + run.0
                &&& final(self).inflate_state() == run.1
                &&& (r is Ok <==> run.2)
            }),
    {
        let mut input = chunk.clone();
        input.push(0x00);
        input.push(0x00);
        input.push(0xff);
        input.push(0xff);
        proof {
            assert(input@ =~= marker_padded(chunk@));
        }
        let ghost input0 = input@;
        let ghost d0 = self.inflate_state();
        let ghost run0 = feed_run(d0, input0, 0, 32768);
        let mut scratch: Vec<u8> = vec![0u8; 32768];
        let mut offset: usize = 0;
        let ghost mut yielded: Seq<u8> = Seq::empty();
        let mut done = false;
        proof {
            assert(Seq::<u8>::empty() + run0.0 =~= run0.0);
            assert(out@ + Seq::<u8>::empty() =~= out@);
        }
        while !done
            invariant
                input@ == input0,
                scratch@.len() == 32768,
                offset <= input0.len(),
                out@ == old(out)@ + yielded,
                !done ==> offset < input0.len(),
                !done ==> ({
                    let runc = feed_run(self.inflate_state(), input0, offset as int, 32768);
                    &&& run0.0 == yielded + runc.0
                    &&& run0.1 == runc.1
                    &&& run0.2 == runc.2
                }),
                done ==> run0.0 == yielded && run0.1 == self.inflate_state() && run0.2 == true,
            decreases
                    (if done {
                        0int
                    } else {
                        1int
                    }),
                    input0.len() - offset,
                    0xffff_ffff_ffff_ffffu64 - total_out_of(self.inflate_state()),
        {
            let ghost d_pre = self.inflate_state();
            let ghost off0 = offset as int;
            let ghost rem = input0.skip(off0);
            let ghost runc = feed_run(d_pre, input0, off0, 32768);
            let before_in = inflate_total_in(&self.state);
            let before_out = inflate_total_out(&self.state);
            let res = inflate_step(&mut self.state, &input, offset, &mut scratch);
            let after_in = inflate_total_in(&self.state);
            let after_out = inflate_total_out(&self.state);
            let ilen = input.len();
            assert(after_in - before_in <= ilen - offset);
            let consumed = (after_in - before_in) as usize;
            let produced = (after_out - before_out) as usize;
            let ghost y = inflate_yield_of(d_pre, rem, 32768);
            proof {
                assert(self.inflate_state() == inflate_next_of(d_pre, rem, 32768));
                assert(produced == y.len());
                assert(scratch@.subrange(0, produced as int) == y);
            }
            offset = offset + consumed;
            let ghost out_pre = out@;
            let mut t: usize = 0;
            while t < produced
                invariant
                    t <= produced,
                    produced <= scratch@.len(),
                    out@ == out_pre + scratch@.subrange(0, t as int),
                decreases produced - t,
            {
                let b = scratch[t];
                out.push(b);
                proof {
                    assert(out@ =~= out_pre + scratch@.subrange(0, t + 1));
                }
                t = t + 1;
            }
            proof {
                assert(out@ == out_pre + y);
                let ghost yielded_pre = yielded;
                yielded = yielded + y;
                assert(out@ =~= old(out)@ + yielded);
                assert(run0.0 == yielded_pre + runc.0);
            }
            match res {
                Err(_) => {
                    proof {
                        assert(inflate_fails_of(d_pre, rem, 32768));
                        assert(runc == (y, self.inflate_state(), false));
                        assert(run0.0 =~= yielded);
                    }
                    return Err(InflateError);
                },
                Ok(st) => {
                    let finished = match st {
                        InflateStatus::Finished => true,
                        _ => false,
                    };
                    if finished {
                        proof {
                            assert(!inflate_fails_of(d_pre, rem, 32768));
                            assert(inflate_status_of(d_pre, rem, 32768) is Finished);
                            assert(runc == (y, self.inflate_state(), true));
                            assert(run0.0 =~= yielded);
                        }
                        done = true;
                    } else if consumed == 0 && produced == 0 {
                        proof {
                            assert(!inflate_fails_of(d_pre, rem, 32768));
                            assert(!(inflate_status_of(d_pre, rem, 32768) is Finished));
                            assert(runc == (y, self.inflate_state(), true));
                            assert(run0.0 =~= yielded);
                        }
                        done = true;
                    } else if offset >= input.len() {
                        proof {
                            assert(!inflate_fails_of(d_pre, rem, 32768));
                            assert(!(inflate_status_of(d_pre, rem, 32768) is Finished));
                            assert(runc == (y, self.inflate_state(), true));
                            assert(run0.0 =~= yielded);
                        }
                        done = true;
                    } else {
                        proof {
                            let runn = feed_run(self.inflate_state(), input0, offset as int, 32768);
                            assert(runc == (y + runn.0, runn.1, runn.2));
                            assert(yielded + runn.0 =~= run0.0);
                        }
                    }
                },
            }
        }
        Ok(())
    }
}

/// The whole inbound path for one connection: compressed frames in, decoded
/// JSON values out, with the byte and character remainders of split values
/// held between frames.
pub struct MessageStream {
    inflater: Inflater,
    assembler: TextAssembler,
    framer: Framer,
}

impl MessageStream {
    /// The decoder state, for the contracts to speak of.
    pub closed spec fn inflate_state(&self) -> flate2::Decompress {
        self.inflater.inflate_state()
    }

    /// The bytes waiting to become valid UTF-8.
    pub closed spec fn pending_bytes(&self) -> Seq<u8> {
        self.assembler.bytes()
    }

    /// The characters waiting for the rest of their value.
    pub closed spec fn pending_text(&self) -> Seq<char> {
        self.framer.pending_chars()
    }

    /// A fresh stream with nothing pending and a fresh decoder.
    pub fn new() -> (r: MessageStream)
        ensures
            r.pending_bytes() == Seq::<u8>::empty(),
            r.pending_text() == Seq::<char>::empty(),
            total_in_of(r.inflate_state()) == 0,
            total_out_of(r.inflate_state()) == 0,
    {
        MessageStream { inflater: Inflater::new(), assembler: TextAssembler::new(), framer: Framer::new() }
    }

    /// Handles one binary frame end to end: inflates it, holds the bytes
    /// until they decode as UTF-8, and carves off every JSON value that is
    /// now complete. The decoder's run yields a fixed byte sequence for the
    /// padded frame; the downstream states move exactly as the assembler's
    /// and framer's contracts say of it, and a decompression fault changes
    /// neither — the faulted chunk's yield is the loss, per-chunk only.
    pub fn feed_frame(&mut self, chunk: &Vec<u8>) -> (r: Result<Vec<Json>, InflateError>)
        ensures
            ({
                let run = feed_run(old(self).inflate_state(), marker_padded(chunk@), 0, 32768);
                let whole = old(self).pending_bytes() + run.0;
                &&& final(self).inflate_state() == run.1
                &&& match r {
                    Ok(vals) => {
                        &&& run.2
                        &&& if vstd::utf8::valid_utf8(whole) {
                            let s = old(self).pending_text() + vstd::utf8::decode_utf8(whole);
                            let (vs, c) = extract_at(s, 0);
                            &&& jmodels(vals@) == vs
                            &&& 0 <= c <= s.len()
                            &&& final(self).pending_text() == s.subrange(c, s.len() as int)
                            &&& final(self).pending_bytes() == Seq::<u8>::empty()
                        } else {
                            &&& vals@.len() == 0
                            &&& final(self).pending_bytes() == whole
                            &&& final(self).pending_text() == old(self).pending_text()
                        }
                    },
                    Err(_) => {
                        &&& !run.2
                        &&& final(self).pending_bytes() == old(self).pending_bytes()
                        &&& final(self).pending_text() == old(self).pending_text()
                    },
                }
            }),
    {
        let ghost run = feed_run(old(self).inflate_state(), marker_padded(chunk@), 0, 32768);
        let mut produced: Vec<u8> = Vec::new();
        match self.inflater.feed(chunk, &mut produced) {
            Err(e) => {
                return Err(e);
            },
            Ok(()) => {},
        }
        proof {
            assert(produced@ =~= run.0);
        }
        let ghost whole = old(self).pending_bytes() + produced@;
        match self.assembler.push_bytes(&produced) {
            None => {
                let vals: Vec<Json> = Vec::new();
                proof {
                    assert(!vstd::utf8::valid_utf8(whole));
                }
                Ok(vals)
            },
            Some(t) => {
                proof {
                    assert(vstd::utf8::valid_utf8(whole));
                    assert(t@ == vstd::utf8::decode_utf8(whole));
                }
                let vals = self.framer.push_text(t.as_str());
                Ok(vals)
            },
        }
    }
}

} // verus!
