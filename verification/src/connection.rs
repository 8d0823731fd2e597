//! The frame pipeline: a buffered reader that yields one decoded RESP3
//! frame at a time, and the session step that dispatches it.
//!
//! A frame is an array of blob strings: `*<count>`, then for each
//! element `$<length>` and the bytes, every line ending in CRLF.
//! `frame_parse` states what a byte buffer holds: a complete frame and
//! how many bytes it takes, too few bytes yet, or malformed input.

use vstd::prelude::*;

use crate::ascii::{copy_bytes, push_bytes};
use crate::command::{dispatch_rel, parse_and_handle};
use crate::database::Database;
use crate::Error;
use vstd::arithmetic::div_mod::lemma_fundamental_div_mod;
use vstd::slice::slice_subrange;

verus! {

broadcast use crate::ascii::lemma_vec_u8_deep_view, crate::ascii::lemma_slice_u8_deep_view;

/// A flush is forced whenever the pending write buffer exceeds this
/// many bytes, whatever the command-level flush flags say.
pub const WRITE_BUF_SIZE_LIMIT: usize = 102400;

/// What scanning a decimal header line finds.
pub enum ScanNum {
    /// The buffer ends before the line does.
    Incomplete,
    /// The line is not a well-formed number.
    Bad,
    /// The value, and the position just past the line's CRLF.
    Got(nat, nat),
}

/// Scans decimal digits and the closing CRLF, from position `p` with
/// the digits read so far worth `acc`. A number must have at least one
/// digit, no leading zero, and fit the machine word.
pub open spec fn scan_digits(bytes: Seq<u8>, p: nat, acc: nat, any: bool) -> ScanNum
    decreases bytes.len() - p,
{
    if p >= bytes.len() {
        ScanNum::Incomplete
    } else {
        let b = bytes[p as int];
        if 48 <= b && b <= 57 {
            if any && acc == 0 {
                ScanNum::Bad
            } else if acc * 10 + (b - 48) > usize::MAX {
                ScanNum::Bad
            } else {
                scan_digits(bytes, (p + 1) as nat, (acc * 10 + (b - 48)) as nat, true)
            }
        } else if b == 13 {
            if !any {
                ScanNum::Bad
            } else if p + 1 >= bytes.len() {
                ScanNum::Incomplete
            } else if bytes[p as int + 1] == 10 {
                ScanNum::Got(acc, (p + 2) as nat)
            } else {
                ScanNum::Bad
            }
        } else {
            ScanNum::Bad
        }
    }
}

/// Scans a marker byte and the decimal line after it.
pub open spec fn scan_header(bytes: Seq<u8>, p: nat, marker: u8) -> ScanNum {
    if p >= bytes.len() {
        ScanNum::Incomplete
    } else if bytes[p as int] != marker {
        ScanNum::Bad
    } else {
        scan_digits(bytes, (p + 1) as nat, 0, false)
    }
}

/// A found number lies within the scanned buffer.
pub proof fn lemma_scan_digits_bounds(bytes: Seq<u8>, p: nat, acc: nat, any: bool)
    ensures
        scan_digits(bytes, p, acc, any) matches ScanNum::Got(v, n) ==> p < n <= bytes.len(),
    decreases bytes.len() - p,
{
    if p < bytes.len() {
        lemma_scan_digits_bounds(bytes, (p + 1) as nat, 0, true);
        let b = bytes[p as int];
        if 48 <= b && b <= 57 && !(any && acc == 0) && acc * 10 + (b - 48) <= usize::MAX {
            lemma_scan_digits_bounds(bytes, (p + 1) as nat, (acc * 10 + (b - 48)) as nat, true);
        }
    }
}

/// What scanning a run of elements finds.
pub enum ScanElems {
    /// The buffer ends before the elements do.
    Incomplete,
    /// An element is malformed.
    Bad,
    /// The elements, and the position just past the last one.
    Got(Seq<Seq<u8>>, nat),
}

/// Scans `k` blob strings from position `p`.
pub open spec fn scan_elems(bytes: Seq<u8>, p: nat, k: nat) -> ScanElems
    decreases k,
{
    if k == 0 {
        ScanElems::Got(Seq::empty(), p)
    } else {
        match scan_header(bytes, p, 36) {
            ScanNum::Incomplete => ScanElems::Incomplete,
            ScanNum::Bad => ScanElems::Bad,
            ScanNum::Got(len, q) => {
                if q + len + 2 > bytes.len() {
                    ScanElems::Incomplete
                } else if bytes[(q + len) as int] != 13 || bytes[(q + len + 1) as int] != 10 {
                    ScanElems::Bad
                } else {
                    match scan_elems(bytes, (q + len + 2) as nat, (k - 1) as nat) {
                        ScanElems::Incomplete => ScanElems::Incomplete,
                        ScanElems::Bad => ScanElems::Bad,
                        ScanElems::Got(rest, e) => ScanElems::Got(
                            seq![bytes.subrange(q as int, (q + len) as int)] + rest,
                            e,
                        ),
                    }
                }
            },
        }
    }
}

/// Found elements lie within the scanned buffer.
pub proof fn lemma_scan_elems_bounds(bytes: Seq<u8>, p: nat, k: nat)
    requires
        p <= bytes.len(),
    ensures
        scan_elems(bytes, p, k) matches ScanElems::Got(es, e) ==> p <= e <= bytes.len(),
    decreases k,
{
    if k > 0 {
        match scan_header(bytes, p, 36) {
            ScanNum::Got(len, q) => {
                if p < bytes.len() && bytes[p as int] == 36 {
                    lemma_scan_digits_bounds(bytes, (p + 1) as nat, 0, false);
                }
                if q + len + 2 <= bytes.len() {
                    lemma_scan_elems_bounds(bytes, (q + len + 2) as nat, (k - 1) as nat);
                }
            },
            _ => {},
        }
    }
}

/// What a byte buffer holds.
pub enum FrameOutcome {
    /// Not enough bytes yet for a complete frame.
    Incomplete,
    /// The buffer does not begin with a well-formed frame.
    Bad,
    /// One complete frame: its elements, and how many bytes it takes.
    Frame(Seq<Seq<u8>>, nat),
}

/// Decodes one frame, an array of blob strings, off the front of a
/// byte buffer.
pub open spec fn frame_parse(bytes: Seq<u8>) -> FrameOutcome {
    match scan_header(bytes, 0, 42) {
        ScanNum::Incomplete => FrameOutcome::Incomplete,
        ScanNum::Bad => FrameOutcome::Bad,
        ScanNum::Got(n, p) => match scan_elems(bytes, p, n) {
            ScanElems::Incomplete => FrameOutcome::Incomplete,
            ScanElems::Bad => FrameOutcome::Bad,
            ScanElems::Got(es, e) => FrameOutcome::Frame(es, e),
        },
    }
}

/// A complete frame lies within the buffer.
pub proof fn lemma_frame_parse_bounds(bytes: Seq<u8>)
    ensures
        frame_parse(bytes) matches FrameOutcome::Frame(es, c) ==> c <= bytes.len(),
{
    match scan_header(bytes, 0, 42) {
        ScanNum::Got(n, p) => {
            lemma_scan_digits_bounds(bytes, 1, 0, false);
            lemma_scan_elems_bounds(bytes, p, n);
        },
        _ => {},
    }
}

/// The result of scanning one decimal header line.
enum ScanRes {
    Incomplete,
    Bad,
    Got { value: usize, next: usize },
}

/// Scans a marker byte and its decimal line.
fn scan_number(bytes: &[u8], start: usize, marker: u8) -> (r: ScanRes)
    requires
        start <= bytes@.len(),
    ensures
        match scan_header(bytes@, start as nat, marker) {
            ScanNum::Incomplete => r is Incomplete,
            ScanNum::Bad => r is Bad,
            ScanNum::Got(v, n) => r matches ScanRes::Got { value, next } && value == v && next
                == n,
        },
{
    if start >= bytes.len() {
        return ScanRes::Incomplete;
    }
    if bytes[start] != marker {
        return ScanRes::Bad;
    }
    let mut p: usize = start + 1;
    let mut acc: usize = 0;
    let mut any = false;
    loop
        invariant
            start + 1 <= p <= bytes@.len(),
            scan_header(bytes@, start as nat, marker) == scan_digits(
                bytes@,
                p as nat,
                acc as nat,
                any,
            ),
        decreases bytes@.len() - p,
    {
        if p >= bytes.len() {
            return ScanRes::Incomplete;
        }
        let b = bytes[p];
        if 48 <= b && b <= 57 {
            if any && acc == 0 {
                return ScanRes::Bad;
            }
            let d = (b - 48) as usize;
            proof {
                lemma_fundamental_div_mod((usize::MAX - d) as int, 10);
            }
            if acc > (usize::MAX - d) / 10 {
                proof {
                    assert(acc * 10 + d > usize::MAX);
                }
                return ScanRes::Bad;
            }
            proof {
                assert(acc * 10 + d <= usize::MAX);
            }
            acc = acc * 10 + d;
            any = true;
            p = p + 1;
        } else if b == 13 {
            if !any {
                return ScanRes::Bad;
            }
            if p + 1 >= bytes.len() {
                return ScanRes::Incomplete;
            }
            if bytes[p + 1] == 10 {
                return ScanRes::Got { value: acc, next: p + 2 };
            } else {
                return ScanRes::Bad;
            }
        } else {
            return ScanRes::Bad;
        }
    }
}

/// One attempt at decoding a frame off the front of a buffer.
pub enum DecodedFrame {
    /// Not enough bytes yet.
    Incomplete,
    /// The buffer does not begin with a well-formed frame.
    Malformed,
    /// The frame's elements, and how many bytes it took.
    Frame(Vec<Vec<u8>>, usize),
}

/// Decodes one frame, an array of blob strings, off the front of the
/// buffer.
pub fn decode_frame(bytes: &[u8]) -> (r: DecodedFrame)
    ensures
        match frame_parse(bytes@) {
            FrameOutcome::Incomplete => r is Incomplete,
            FrameOutcome::Bad => r is Malformed,
            FrameOutcome::Frame(es, c) => r matches DecodedFrame::Frame(v, consumed)
                && v.deep_view() == es && consumed == c,
        },
{
    let hdr = scan_number(bytes, 0, 42);
    let (n, p0) = match hdr {
        ScanRes::Incomplete => {
            return DecodedFrame::Incomplete;
        },
        ScanRes::Bad => {
            return DecodedFrame::Malformed;
        },
        ScanRes::Got { value, next } => (value, next),
    };
    proof {
        lemma_scan_digits_bounds(bytes@, 1, 0, false);
    }
    let mut out: Vec<Vec<u8>> = Vec::new();
    let mut p: usize = p0;
    let mut rem: usize = n;
    proof {
        assert(out.deep_view() =~~= Seq::<Seq<u8>>::empty());
    }
    loop
        invariant
            p <= bytes@.len(),
            scan_header(bytes@, 0, 42) == ScanNum::Got(n as nat, p0 as nat),
            match scan_elems(bytes@, p as nat, rem as nat) {
                ScanElems::Incomplete => scan_elems(bytes@, p0 as nat, n as nat)
                    is Incomplete,
                ScanElems::Bad => scan_elems(bytes@, p0 as nat, n as nat) is Bad,
                ScanElems::Got(rest, e) => scan_elems(bytes@, p0 as nat, n as nat)
                    == ScanElems::Got(out.deep_view() + rest, e),
            },
        ensures
            rem == 0,
            p <= bytes@.len(),
            scan_elems(bytes@, p0 as nat, n as nat) == ScanElems::Got(out.deep_view(), p as nat),
        decreases rem,
    {
        if rem == 0 {
            proof {
                assert(out.deep_view() + Seq::<Seq<u8>>::empty() =~~= out.deep_view());
            }
            break ;
        }
        let h = scan_number(bytes, p, 36);
        let (len, q) = match h {
            ScanRes::Incomplete => {
                return DecodedFrame::Incomplete;
            },
            ScanRes::Bad => {
                return DecodedFrame::Malformed;
            },
            ScanRes::Got { value, next } => (value, next),
        };
        proof {
            lemma_scan_digits_bounds(bytes@, p as nat + 1, 0, false);
        }
        let blen = bytes.len();
        let remaining = blen - q;
        if remaining < 2 || len > remaining - 2 {
            proof {
                assert(q + len + 2 > bytes@.len());
            }
            return DecodedFrame::Incomplete;
        }
        proof {
            assert(q + len + 2 <= bytes@.len());
        }
        if bytes[q + len] != 13 || bytes[q + len + 1] != 10 {
            return DecodedFrame::Malformed;
        }
        let elem = copy_bytes(slice_subrange(bytes, q, q + len));
        let ghost pre = out.deep_view();
        let ghost el = bytes@.subrange(q as int, (q + len) as int);
        out.push(elem);
        proof {
            assert(out.deep_view() =~~= pre.push(el));
        }
        p = q + len + 2;
        rem = rem - 1;
        proof {
            match scan_elems(bytes@, p as nat, rem as nat) {
                ScanElems::Got(rest2, e2) => {
                    assert(pre.push(el) + rest2 =~~= pre + (seq![el] + rest2));
                },
                _ => {},
            }
        }
    }
    DecodedFrame::Frame(out, p)
}

/// A buffered frame reader: bytes read from the transport accumulate
/// in a growable buffer, and complete frames come off its front one at
/// a time. The bytes of a returned frame are discarded on the next
/// call, not before.
#[derive(Debug)]
pub struct FrameReader {
    read_buf: Vec<u8>,
    last_frame_bytes_consumed: usize,
}

impl FrameReader {
    /// The consumed prefix never runs past the buffer.
    pub closed spec fn wf(&self) -> bool {
        self.last_frame_bytes_consumed <= self.read_buf@.len()
    }

    /// The bytes not yet decoded into a returned frame.
    pub closed spec fn buffered(&self) -> Seq<u8> {
        self.read_buf@.skip(self.last_frame_bytes_consumed as int)
    }

    /// An empty reader.
    pub fn new() -> (r: FrameReader)
        ensures
            r.wf(),
            r.buffered() == Seq::<u8>::empty(),
    {
        let r = FrameReader { read_buf: Vec::new(), last_frame_bytes_consumed: 0 };
        proof {
            assert(r.buffered() =~= Seq::<u8>::empty());
        }
        r
    }

    /// Appends bytes read from the transport to the buffer.
    pub fn append(&mut self, bytes: &[u8])
        requires
            old(self).wf(),
        ensures
            final(self).wf(),
            final(self).buffered() == old(self).buffered() + bytes@,
    {
        push_bytes(&mut self.read_buf, bytes);
        proof {
            assert(self.buffered() =~= old(self).buffered() + bytes@);
        }
    }

    /// Drops the bytes of the last returned frame.
    fn discard_consumed(&mut self)
        requires
            old(self).wf(),
        ensures
            final(self).wf(),
            final(self).buffered() == old(self).buffered(),
            final(self).read_buf@ == old(self).buffered(),
            final(self).last_frame_bytes_consumed == 0,
    {
        if self.last_frame_bytes_consumed > 0 {
            let rest = copy_bytes(
                slice_subrange(
                    self.read_buf.as_slice(),
                    self.last_frame_bytes_consumed,
                    self.read_buf.len(),
                ),
            );
            self.read_buf = rest;
            self.last_frame_bytes_consumed = 0;
        }
        proof {
            assert(self.buffered() =~= old(self).buffered());
        }
    }

    /// Reads one frame out of the buffer: the next complete frame's
    /// elements, or `None` when the buffered bytes do not yet hold a
    /// whole frame; malformed input is an error that ends the session.
    /// The frame's bytes stay in place until the next call.
    pub fn next_buffered_frame(&mut self) -> (r: Result<Option<Vec<Vec<u8>>>, Error>)
        requires
            old(self).wf(),
        ensures
            final(self).wf(),
            match frame_parse(old(self).buffered()) {
                FrameOutcome::Incomplete => r matches Ok(o) && o is None && final(self).buffered()
                    == old(self).buffered(),
                FrameOutcome::Frame(es, c) => r matches Ok(o) && (o matches Some(v)
                    && v.deep_view() == es) && final(self).buffered() == old(
                    self,
                ).buffered().skip(c as int),
                FrameOutcome::Bad => r is Err,
            },
    {
        self.discard_consumed();
        proof {
            lemma_frame_parse_bounds(self.read_buf@);
        }
        match decode_frame(self.read_buf.as_slice()) {
            DecodedFrame::Incomplete => {
                proof {
                    assert(self.buffered() =~= self.read_buf@);
                }
                Ok(None)
            },
            DecodedFrame::Frame(v, consumed) => {
                self.last_frame_bytes_consumed = consumed;
                proof {
                    assert(self.buffered() =~= old(self).buffered().skip(
                        self.last_frame_bytes_consumed as int,
                    ));
                }
                Ok(Some(v))
            },
            DecodedFrame::Malformed => {
                let msg: [u8; 18] = [
                    69,
                    82,
                    82,
                    32,
                    112,
                    114,
                    111,
                    116,
                    111,
                    99,
                    111,
                    108,
                    32,
                    101,
                    114,
                    114,
                    111,
                    114,
                ];
                Err(Error::Handle(copy_bytes(msg.as_slice())))
            },
        }
    }
}

/// One frame was dispatched: some flush flag from the dispatch
/// relation, joined with the high-water mark on the write buffer,
/// gives the step's flush decision.
pub open spec fn handled_rel(
    es: Seq<Seq<u8>>,
    db0: Map<Seq<u8>, crate::memds::MemV>,
    db1: Map<Seq<u8>, crate::memds::MemV>,
    appended: Seq<u8>,
    flush_now: bool,
    save: bool,
    buf_len: nat,
) -> bool {
    exists|nf: bool|
        #[trigger] dispatch_rel(es, db0, db1, appended, nf, save) && flush_now == (nf || buf_len
            > WRITE_BUF_SIZE_LIMIT)
}

/// What one session step did.
pub enum SessionStep {
    /// The buffer holds no complete frame: read more bytes.
    NoFrame,
    /// One frame was dispatched; the response sits in the write
    /// buffer, to be flushed at once when asked, and a snapshot may
    /// have been requested.
    Handled { flush_now: bool, save_requested: bool },
}

/// Takes the next buffered frame, if any, and dispatches it: the
/// response is appended to the write buffer, and the caller is told
/// whether to flush at once, either because the command asked or
/// because the write buffer has outgrown its high-water mark. A
/// malformed frame is an error that ends the session.
#[verifier::rlimit(100)]
pub fn handle_next_frame(
    reader: &mut FrameReader,
    db: &mut Database,
    write_buf: &mut Vec<u8>,
) -> (r: Result<SessionStep, Error>)
    requires
        old(reader).wf(),
        old(db).wf(),
    ensures
        final(reader).wf(),
        final(db).wf(),
        frame_parse(old(reader).buffered()) is Incomplete ==> (r matches Ok(s) && s is NoFrame
            && final(db)@ == old(db)@ && final(write_buf)@ == old(write_buf)@
            && final(reader).buffered() == old(reader).buffered()),
        frame_parse(old(reader).buffered()) matches FrameOutcome::Frame(es, c) ==> (
        r matches Ok(s) && s matches SessionStep::Handled { flush_now, save_requested }
            && final(reader).buffered() == old(reader).buffered().skip(c as int)
            && old(write_buf)@.is_prefix_of(final(write_buf)@) && handled_rel(
            es,
            old(db)@,
            final(db)@,
            final(write_buf)@.skip(old(write_buf)@.len() as int),
            flush_now,
            save_requested,
            final(write_buf)@.len(),
        )),
        frame_parse(old(reader).buffered()) is Bad ==> r is Err,
{
    let frame = match reader.next_buffered_frame() {
        Ok(Some(frame)) => frame,
        Ok(None) => {
            return Ok(SessionStep::NoFrame);
        },
        Err(e) => {
            return Err(e);
        },
    };
    let frame_slice = frame.as_slice();
    proof {
        assert(frame_slice.deep_view() =~~= frame.deep_view());
    }
    match parse_and_handle(frame_slice, db, write_buf) {
        Ok(d) => {
            let flush_now = d.need_flush || write_buf.len() > WRITE_BUF_SIZE_LIMIT;
            proof {
                assert(dispatch_rel(
                    frame.deep_view(),
                    old(db)@,
                    db@,
                    write_buf@.skip(old(write_buf)@.len() as int),
                    d.need_flush,
                    d.save_requested,
                ));
                assert(handled_rel(
                    frame.deep_view(),
                    old(db)@,
                    db@,
                    write_buf@.skip(old(write_buf)@.len() as int),
                    flush_now,
                    d.save_requested,
                    write_buf@.len(),
                ));
            }
            Ok(SessionStep::Handled { flush_now, save_requested: d.save_requested })
        },
        Err(e) => Err(e),
    }
}

/// Within one session, responses are emitted in the order of the
/// requests that produced them: dispatching two frames in turn appends
/// the first frame's response bytes, then the second's, after what the
/// buffer already held.
pub proof fn lemma_pipeline_order(buf0: Seq<u8>, out1: Seq<u8>, out2: Seq<u8>)
    ensures
        (buf0 + out1 + out2).skip(buf0.len() as int) == out1 + out2,
        (buf0 + out1).skip(buf0.len() as int) == out1,
        out1.is_prefix_of((buf0 + out1 + out2).skip(buf0.len() as int)),
{
    assert((buf0 + out1 + out2).skip(buf0.len() as int) =~= out1 + out2);
    assert((buf0 + out1).skip(buf0.len() as int) =~= out1);
    assert((out1 + out2).take(out1.len() as int) =~= out1);
}

} // verus!
