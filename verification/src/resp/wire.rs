//! The byte grammar: what each frame is on the wire.

use crate::resp::decimal::{nat_digits, signed_text};
use crate::resp::FrameView;
use vstd::prelude::*;
use vstd::utf8::encode_utf8;

verus! {

/// The first byte of a simple string, `+`.
pub const SIMPLE_STRING: u8 = 43;

/// The first byte of a simple error, `-`.
pub const SIMPLE_ERROR: u8 = 45;

/// The first byte of an integer, `:`.
pub const INTEGER: u8 = 58;

/// The first byte of a bulk string and of the null bulk string, `$`.
pub const BULK_STRING: u8 = 36;

/// The first byte of an array and of the null array, `*`.
pub const ARRAY: u8 = 42;

/// The first byte of the null value, `_`.
pub const NULL: u8 = 95;

/// The first byte of a boolean, `#`.
pub const BOOLEAN: u8 = 35;

/// The first byte of a double, `,`.
pub const DOUBLE: u8 = 44;

/// The first byte of a map, `%`.
pub const MAP: u8 = 37;

/// The first byte of a set, `~`.
pub const SET: u8 = 126;

/// The end of a line: a carriage return and a line feed.
pub open spec fn crlf() -> Seq<u8> {
    seq![13u8, 10u8]
}

/// The length written in place of one by the null bulk string and the null
/// array: `-1`.
pub open spec fn minus_one() -> Seq<u8> {
    seq![45u8, 49u8]
}

/// A line of the wire: the prefix of its kind, its body and the line end.
pub open spec fn line(prefix: u8, body: Seq<u8>) -> Seq<u8> {
    seq![prefix] + body + crlf()
}

/// The letter of a boolean: `t` or `f`.
pub open spec fn boolean_letter(b: bool) -> u8 {
    if b {
        116
    } else {
        102
    }
}

/// The frames of `items` on the wire, one behind the other.
pub open spec fn wire_all(items: Seq<FrameView>) -> Seq<u8>
    decreases items,
{
    if items.len() == 0 {
        Seq::empty()
    } else {
        wire_all(items.drop_last()) + wire(items.last())
    }
}

/// The entries of a map on the wire, one behind the other: each key as a
/// simple string, then its value.
pub open spec fn wire_entries(entries: Seq<(Seq<char>, FrameView)>) -> Seq<u8>
    decreases entries,
{
    if entries.len() == 0 {
        Seq::empty()
    } else {
        wire_entries(entries.drop_last()) + line(SIMPLE_STRING, encode_utf8(entries.last().0))
            + wire(entries.last().1)
    }
}

/// A frame on the wire.
pub open spec fn wire(f: FrameView) -> Seq<u8>
    decreases f,
{
    match f {
        FrameView::SimpleString(s) => line(SIMPLE_STRING, encode_utf8(s)),
        FrameView::Error(s) => line(SIMPLE_ERROR, encode_utf8(s)),
        FrameView::Integer(i) => line(INTEGER, signed_text(i as int)),
        FrameView::BulkString(b) => line(BULK_STRING, nat_digits(b.len())) + b + crlf(),
        FrameView::Array(items) => line(ARRAY, nat_digits(items.len())) + wire_all(items),
        FrameView::Null => line(NULL, Seq::empty()),
        FrameView::NullArray => line(ARRAY, minus_one()),
        FrameView::NullBulkString => line(BULK_STRING, minus_one()),
        FrameView::Boolean(b) => line(BOOLEAN, seq![boolean_letter(b)]),
        FrameView::Double(d) => line(DOUBLE, d.text()),
        FrameView::RespMap(entries) => line(MAP, nat_digits(entries.len())) + wire_entries(
            entries,
        ),
        FrameView::RespSet(items) => line(SET, nat_digits(items.len())) + wire_all(items),
    }
}

/// The first frame of a sequence stands on the wire before the others.
pub proof fn lemma_wire_all_first(items: Seq<FrameView>)
    requires
        items.len() > 0,
    ensures
        wire_all(items) == wire(items[0]) + wire_all(items.skip(1)),
    decreases items.len(),
{
    if items.len() == 1 {
        assert(items.drop_last() =~= Seq::<FrameView>::empty());
        assert(items.skip(1) =~= Seq::<FrameView>::empty());
    } else {
        lemma_wire_all_first(items.drop_last());
        assert(items.drop_last().skip(1) =~= items.skip(1).drop_last());
    }
}

/// The first entry of a map stands on the wire before the others.
pub proof fn lemma_wire_entries_first(entries: Seq<(Seq<char>, FrameView)>)
    requires
        entries.len() > 0,
    ensures
        wire_entries(entries) == line(SIMPLE_STRING, encode_utf8(entries[0].0)) + wire(
            entries[0].1,
        ) + wire_entries(entries.skip(1)),
    decreases entries.len(),
{
    if entries.len() == 1 {
        assert(entries.drop_last() =~= Seq::<(Seq<char>, FrameView)>::empty());
        assert(entries.skip(1) =~= Seq::<(Seq<char>, FrameView)>::empty());
    } else {
        lemma_wire_entries_first(entries.drop_last());
        assert(entries.drop_last().skip(1) =~= entries.skip(1).drop_last());
    }
}

} // verus!
