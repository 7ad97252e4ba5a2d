//! The encoder: frames to bytes.

use crate::resp::{
    entries_view, frames_view, lemma_entries_view, lemma_frames_view, BulkString, FrameView,
    RespArray, RespEncode, RespFrame, RespNull, RespNullArray, RespNullBulkString, RespSet,
    SimpleError, SimpleString,
};
use crate::resp::append::push_bytes;
use crate::resp::decimal::{nat_digits, push_nat, push_signed};
use crate::resp::double::RespDouble;
use crate::resp::map::RespMap;
use crate::resp::wire::{
    crlf, line, minus_one, wire, wire_all, wire_entries, ARRAY, BOOLEAN, BULK_STRING, DOUBLE,
    INTEGER, MAP, NULL, SET, SIMPLE_ERROR, SIMPLE_STRING,
};
use vstd::prelude::*;
use vstd::utf8::encode_utf8;

verus! {

/// The room that the encoder sets aside for a frame of many parts.
const BUF_CAP: usize = 4096;

/// Appends a line end to `out`.
fn push_crlf(out: &mut Vec<u8>)
    ensures
        final(out)@ == old(out)@ + crlf(),
{
    out.push(13u8);
    out.push(10u8);
}

/// Appends to `out` the line of a text: a prefix, the UTF-8 bytes of the
/// text and a line end.
fn push_text_line(out: &mut Vec<u8>, prefix: u8, text: &str)
    ensures
        final(out)@ == old(out)@ + line(prefix, encode_utf8(text@)),
{
    out.push(prefix);
    push_bytes(out, text.as_bytes());
    push_crlf(out);
}

/// Appends to `out` the line that opens a frame of many parts: a prefix,
/// the number of parts and a line end.
fn push_count_line(out: &mut Vec<u8>, prefix: u8, count: usize)
    ensures
        final(out)@ == old(out)@ + line(prefix, nat_digits(count as nat)),
{
    out.push(prefix);
    push_nat(out, count as u64);
    push_crlf(out);
}

/// Appends to `out` a line whose body is `-1`.
fn push_null_line(out: &mut Vec<u8>, prefix: u8)
    ensures
        final(out)@ == old(out)@ + line(prefix, minus_one()),
{
    out.push(prefix);
    out.push(45u8);
    out.push(49u8);
    push_crlf(out);
}

/// Appends the bytes of a bulk string to `out`: its length on a line, then
/// its bytes and a line end.
fn push_bulk(out: &mut Vec<u8>, bytes: &Vec<u8>)
    ensures
        final(out)@ == old(out)@ + wire(FrameView::BulkString(bytes@)),
{
    push_count_line(out, BULK_STRING, bytes.len());
    push_bytes(out, bytes.as_slice());
    push_crlf(out);
}

/// Appends the bytes of the frames of `v` to `out`, in their order.
pub fn encode_frames(v: &Vec<RespFrame>, out: &mut Vec<u8>)
    ensures
        final(out)@ == old(out)@ + wire_all(frames_view(v@)),
    decreases v,
{
    let ghost items = frames_view(v@);
    proof {
        lemma_frames_view(v@);
    }
    let mut i: usize = 0;
    while i < v.len()
        invariant
            i <= v.len(),
            items == frames_view(v@),
            items.len() == v.len(),
            forall|j: int| 0 <= j < v.len() ==> (#[trigger] items[j]) == v@[j]@,
            out@ == old(out)@ + wire_all(items.take(i as int)),
        decreases v.len() - i,
    {
        let item = &v[i];
        encode_into(item, out);
        proof {
            assert(items.take(i + 1).drop_last() =~= items.take(i as int));
        }
        i += 1;
    }
    proof {
        assert(items.take(v.len() as int) =~= items);
    }
}

/// Appends the bytes of the entries of a map to `out`, in their order.
pub fn encode_entries(v: &Vec<(String, RespFrame)>, out: &mut Vec<u8>)
    ensures
        final(out)@ == old(out)@ + wire_entries(entries_view(v@)),
    decreases v,
{
    let ghost entries = entries_view(v@);
    proof {
        lemma_entries_view(v@);
    }
    let mut i: usize = 0;
    while i < v.len()
        invariant
            i <= v.len(),
            entries == entries_view(v@),
            entries.len() == v.len(),
            forall|j: int| 0 <= j < v.len() ==> (#[trigger] entries[j]) == (v@[j].0@, v@[j].1@),
            out@ == old(out)@ + wire_entries(entries.take(i as int)),
        decreases v.len() - i,
    {
        let entry = &v[i];
        push_text_line(out, SIMPLE_STRING, entry.0.as_str());
        encode_into(&entry.1, out);
        proof {
            assert(entries.take(i + 1).drop_last() =~= entries.take(i as int));
        }
        i += 1;
    }
    proof {
        assert(entries.take(v.len() as int) =~= entries);
    }
}

/// Appends the bytes of `frame` to `out`.
pub fn encode_into(frame: &RespFrame, out: &mut Vec<u8>)
    ensures
        final(out)@ == old(out)@ + wire(frame@),
    decreases frame,
{
    match frame {
        RespFrame::SimpleSting(s) => push_text_line(out, SIMPLE_STRING, s.0.as_str()),
        RespFrame::Error(e) => push_text_line(out, SIMPLE_ERROR, e.0.as_str()),
        RespFrame::Integer(i) => {
            out.push(INTEGER);
            push_signed(out, *i);
            push_crlf(out);
        },
        RespFrame::BulkString(b) => push_bulk(out, &b.0),
        RespFrame::Array(a) => {
            push_count_line(out, ARRAY, a.0.len());
            encode_frames(&a.0, out);
            proof {
                lemma_frames_view(a.0@);
            }
        },
        RespFrame::Null(_) => {
            out.push(NULL);
            push_crlf(out);
        },
        RespFrame::NullArray(_) => push_null_line(out, ARRAY),
        RespFrame::NullBulkString(_) => push_null_line(out, BULK_STRING),
        RespFrame::Boolean(b) => {
            out.push(BOOLEAN);
            out.push(if *b { 116u8 } else { 102u8 });
            push_crlf(out);
        },
        RespFrame::Double(d) => {
            out.push(DOUBLE);
            d.push_text(out);
            push_crlf(out);
        },
        RespFrame::RespMap(m) => {
            push_count_line(out, MAP, m.entries.len());
            encode_entries(&m.entries, out);
            proof {
                lemma_entries_view(m.entries@);
            }
        },
        RespFrame::RespSet(s) => {
            push_count_line(out, SET, s.0.len());
            encode_frames(&s.0, out);
            proof {
                lemma_frames_view(s.0@);
            }
        },
    }
}

impl RespEncode for RespFrame {
    fn encode(self) -> (out: Vec<u8>) {
        let mut out: Vec<u8> = Vec::new();
        encode_into(&self, &mut out);
        out
    }
}

impl RespEncode for SimpleString {
    fn encode(self) -> (out: Vec<u8>) {
        let mut out: Vec<u8> = Vec::new();
        push_text_line(&mut out, SIMPLE_STRING, self.0.as_str());
        out
    }
}

impl RespEncode for SimpleError {
    fn encode(self) -> (out: Vec<u8>) {
        let mut out: Vec<u8> = Vec::new();
        push_text_line(&mut out, SIMPLE_ERROR, self.0.as_str());
        out
    }
}

impl RespEncode for BulkString {
    fn encode(self) -> (out: Vec<u8>) {
        let mut out: Vec<u8> = Vec::with_capacity(
            if self.0.len() <= usize::MAX - 16 {
                self.0.len() + 16
            } else {
                self.0.len()
            },
        );
        push_bulk(&mut out, &self.0);
        out
    }
}

impl RespEncode for RespNullBulkString {
    fn encode(self) -> (out: Vec<u8>) {
        let mut out: Vec<u8> = Vec::new();
        push_null_line(&mut out, BULK_STRING);
        out
    }
}

impl RespEncode for RespNull {
    fn encode(self) -> (out: Vec<u8>) {
        RespFrame::Null(self).encode()
    }
}

impl RespEncode for RespNullArray {
    fn encode(self) -> (out: Vec<u8>) {
        let mut out: Vec<u8> = Vec::new();
        push_null_line(&mut out, ARRAY);
        out
    }
}

impl RespEncode for RespArray {
    fn encode(self) -> (out: Vec<u8>) {
        let mut out: Vec<u8> = Vec::with_capacity(BUF_CAP);
        push_count_line(&mut out, ARRAY, self.0.len());
        encode_frames(&self.0, &mut out);
        proof {
            lemma_frames_view(self.0@);
        }
        out
    }
}

impl RespEncode for i64 {
    fn encode(self) -> (out: Vec<u8>) {
        RespFrame::Integer(self).encode()
    }
}

impl RespEncode for bool {
    fn encode(self) -> (out: Vec<u8>) {
        RespFrame::Boolean(self).encode()
    }
}

impl RespEncode for RespDouble {
    fn encode(self) -> (out: Vec<u8>) {
        RespFrame::Double(self).encode()
    }
}

impl RespEncode for RespMap {
    fn encode(self) -> (out: Vec<u8>) {
        let mut out: Vec<u8> = Vec::with_capacity(BUF_CAP);
        push_count_line(&mut out, MAP, self.entries.len());
        encode_entries(&self.entries, &mut out);
        proof {
            lemma_entries_view(self.entries@);
        }
        out
    }
}

impl RespEncode for RespSet {
    fn encode(self) -> (out: Vec<u8>) {
        let mut out: Vec<u8> = Vec::with_capacity(BUF_CAP);
        push_count_line(&mut out, SET, self.0.len());
        encode_frames(&self.0, &mut out);
        proof {
            lemma_frames_view(self.0@);
        }
        out
    }
}

} // verus!
