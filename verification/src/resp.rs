//! RESP3 encoding of the server's responses.
//!
//! `resp_bytes` states, byte for byte, what each response looks like on
//! the wire; `write_response` appends exactly those bytes.

use vstd::prelude::*;

use crate::ascii::push_bytes;
use crate::command::connection::ServerProperties;
use crate::num::{dec_rep, dec_rep_int, format_i64, format_usize};

verus! {

broadcast use crate::ascii::lemma_vec_u8_deep_view, crate::ascii::lemma_slice_u8_deep_view;

/// One response value, as the handlers produce it.
#[derive(Debug)]
pub enum Response {
    /// `+OK`
    Okay,
    /// A simple string: `+<text>`
    Simple(Vec<u8>),
    /// A simple error: `-<message>`
    Error(Vec<u8>),
    /// An integer: `:<value>`
    Integer(i64),
    /// A non-negative integer: `:<value>`
    Uint(usize),
    /// A blob string: `$<length>` then the bytes
    Bulk(Vec<u8>),
    /// The null value: `_`
    Nil,
    /// An array of blob strings: `*<count>` then the elements
    Array(Vec<Vec<u8>>),
    /// The HELLO reply: a map of the server's properties
    Props(ServerProperties),
}

/// Model of [`Response`].
pub enum RespV {
    Okay,
    Simple(Seq<u8>),
    Error(Seq<u8>),
    Integer(i64),
    Uint(usize),
    Bulk(Seq<u8>),
    Nil,
    Array(Seq<Seq<u8>>),
    Props { server: Seq<u8>, version: Seq<u8>, proto: usize },
}

impl DeepView for Response {
    type V = RespV;

    open spec fn deep_view(&self) -> RespV {
        match self {
            Response::Okay => RespV::Okay,
            Response::Simple(s) => RespV::Simple(s@),
            Response::Error(s) => RespV::Error(s@),
            Response::Integer(i) => RespV::Integer(*i),
            Response::Uint(u) => RespV::Uint(*u),
            Response::Bulk(s) => RespV::Bulk(s@),
            Response::Nil => RespV::Nil,
            Response::Array(items) => RespV::Array(items.deep_view()),
            Response::Props(p) => RespV::Props {
                server: p.server@,
                version: p.version@,
                proto: p.proto,
            },
        }
    }
}

/// The line terminator.
pub open spec fn crlf() -> Seq<u8> {
    seq![13u8, 10u8]
}

/// A simple string line: `+<text>`.
pub open spec fn simple_bytes(s: Seq<u8>) -> Seq<u8> {
    seq![43u8] + s + crlf()
}

/// A blob string: `$<length>`, then the bytes on their own line.
pub open spec fn bulk_bytes(s: Seq<u8>) -> Seq<u8> {
    seq![36u8] + dec_rep(s.len()) + crlf() + s + crlf()
}

/// The elements of an array, one blob string each.
pub open spec fn array_elems_bytes(items: Seq<Seq<u8>>) -> Seq<u8>
    decreases items.len(),
{
    if items.len() == 0 {
        Seq::empty()
    } else {
        array_elems_bytes(items.drop_last()) + bulk_bytes(items.last())
    }
}

/// The wire bytes of one response.
pub open spec fn resp_bytes(r: RespV) -> Seq<u8> {
    match r {
        RespV::Okay => seq![43u8, 79u8, 75u8, 13u8, 10u8],
        RespV::Simple(s) => simple_bytes(s),
        RespV::Error(s) => seq![45u8] + s + crlf(),
        RespV::Integer(i) => seq![58u8] + dec_rep_int(i as int) + crlf(),
        RespV::Uint(u) => seq![58u8] + dec_rep(u as nat) + crlf(),
        RespV::Bulk(s) => bulk_bytes(s),
        RespV::Nil => seq![95u8, 13u8, 10u8],
        RespV::Array(items) => seq![42u8] + dec_rep(items.len()) + crlf() + array_elems_bytes(
            items,
        ),
        RespV::Props { server, version, proto } => seq![37u8, 51u8, 13u8, 10u8] + simple_bytes(
            seq![115u8, 101u8, 114u8, 118u8, 101u8, 114u8],
        ) + simple_bytes(server) + simple_bytes(
            seq![118u8, 101u8, 114u8, 115u8, 105u8, 111u8, 110u8],
        ) + simple_bytes(version) + simple_bytes(seq![112u8, 114u8, 111u8, 116u8, 111u8]) + seq![
            58u8,
        ] + dec_rep(proto as nat) + crlf(),
    }
}

/// Appends the line terminator.
fn write_crlf(out: &mut Vec<u8>)
    ensures
        final(out)@ == old(out)@ + crlf(),
{
    let b: [u8; 2] = [13, 10];
    push_bytes(out, b.as_slice());
    proof {
        assert(b@ =~= crlf());
    }
}

/// Appends a simple string line.
fn write_simple(out: &mut Vec<u8>, s: &[u8])
    ensures
        final(out)@ == old(out)@ + simple_bytes(s@),
{
    let ghost pre = out@;
    out.push(43);
    push_bytes(out, s);
    write_crlf(out);
    proof {
        assert(out@ =~= pre + simple_bytes(s@));
    }
}

/// Appends a blob string.
fn write_bulk(out: &mut Vec<u8>, s: &[u8])
    ensures
        final(out)@ == old(out)@ + bulk_bytes(s@),
{
    let ghost pre = out@;
    out.push(36);
    let len = format_usize(s.len());
    push_bytes(out, len.as_slice());
    write_crlf(out);
    push_bytes(out, s);
    write_crlf(out);
    proof {
        assert(out@ =~= pre + bulk_bytes(s@));
    }
}

/// Appending one more element extends the element bytes at the end.
proof fn lemma_array_elems_push(items: Seq<Seq<u8>>, x: Seq<u8>)
    ensures
        array_elems_bytes(items.push(x)) == array_elems_bytes(items) + bulk_bytes(x),
{
    assert(items.push(x).drop_last() =~= items);
    assert(items.push(x).last() == x);
}

/// Appends the wire bytes of a response.
pub fn write_response(out: &mut Vec<u8>, r: &Response)
    ensures
        final(out)@ == old(out)@ + resp_bytes(r.deep_view()),
{
    match r {
        Response::Okay => {
            let b: [u8; 5] = [43, 79, 75, 13, 10];
            push_bytes(out, b.as_slice());
            proof {
                assert(out@ =~= old(out)@ + resp_bytes(r.deep_view()));
            }
        },
        Response::Simple(s) => {
            write_simple(out, s.as_slice());
        },
        Response::Error(s) => {
            let ghost pre = out@;
            out.push(45);
            push_bytes(out, s.as_slice());
            write_crlf(out);
            proof {
                assert(out@ =~= pre + resp_bytes(r.deep_view()));
            }
        },
        Response::Integer(i) => {
            let ghost pre = out@;
            out.push(58);
            let d = format_i64(*i);
            push_bytes(out, d.as_slice());
            write_crlf(out);
            proof {
                assert(out@ =~= pre + resp_bytes(r.deep_view()));
            }
        },
        Response::Uint(u) => {
            let ghost pre = out@;
            out.push(58);
            let d = format_usize(*u);
            push_bytes(out, d.as_slice());
            write_crlf(out);
            proof {
                assert(out@ =~= pre + resp_bytes(r.deep_view()));
            }
        },
        Response::Bulk(s) => {
            write_bulk(out, s.as_slice());
        },
        Response::Nil => {
            let b: [u8; 3] = [95, 13, 10];
            push_bytes(out, b.as_slice());
            proof {
                assert(out@ =~= old(out)@ + resp_bytes(r.deep_view()));
            }
        },
        Response::Array(items) => {
            let ghost pre = out@;
            out.push(42);
            let d = format_usize(items.len());
            push_bytes(out, d.as_slice());
            write_crlf(out);
            let ghost head = pre + seq![42u8] + dec_rep(items.deep_view().len()) + crlf();
            proof {
                assert(out@ =~= head);
                assert(items.deep_view().take(0) =~~= Seq::<Seq<u8>>::empty());
            }
            let mut i: usize = 0;
            while i < items.len()
                invariant
                    0 <= i <= items.deep_view().len(),
                    out@ == head + array_elems_bytes(items.deep_view().take(i as int)),
                decreases items.deep_view().len() - i,
            {
                write_bulk(out, items[i].as_slice());
                proof {
                    assert(items.deep_view().take(i + 1) =~~= items.deep_view().take(
                        i as int,
                    ).push(items.deep_view()[i as int]));
                    lemma_array_elems_push(
                        items.deep_view().take(i as int),
                        items.deep_view()[i as int],
                    );
                }
                i = i + 1;
            }
            proof {
                assert(items.deep_view().take(items.deep_view().len() as int) =~~=
                    items.deep_view());
                assert(out@ =~= pre + resp_bytes(r.deep_view()));
            }
        },
        Response::Props(p) => {
            let ghost pre = out@;
            let hdr: [u8; 4] = [37, 51, 13, 10];
            push_bytes(out, hdr.as_slice());
            let k1: [u8; 6] = [115, 101, 114, 118, 101, 114];
            write_simple(out, k1.as_slice());
            write_simple(out, p.server.as_slice());
            let k2: [u8; 7] = [118, 101, 114, 115, 105, 111, 110];
            write_simple(out, k2.as_slice());
            write_simple(out, p.version.as_slice());
            let k3: [u8; 5] = [112, 114, 111, 116, 111];
            write_simple(out, k3.as_slice());
            out.push(58);
            let d = format_usize(p.proto);
            push_bytes(out, d.as_slice());
            write_crlf(out);
            proof {
                assert(out@ =~= pre + resp_bytes(r.deep_view()));
            }
        },
    }
}

} // verus!
