//! The byte grammar read from the front of a buffer: which frame the bytes
//! begin with, how many bytes it takes, and why there is none.

use crate::resp::{ErrorKind, FrameView};
use crate::resp::decimal::{bounded_numeral, i64_value};
use crate::resp::double::double_value;
use crate::resp::map::upsert;
use crate::resp::text::text_of;
use crate::resp::wire::{
    minus_one, ARRAY, BOOLEAN, BULK_STRING, DOUBLE, INTEGER, MAP, NULL, SET, SIMPLE_ERROR,
    SIMPLE_STRING,
};
use vstd::prelude::*;

verus! {

/// What the front of a buffer was read as.
pub enum Parsed<T> {
    /// A value, and the number of bytes that it took.
    Complete(T, nat),
    /// No value: the buffer ends too early, or its bytes break the grammar.
    Failed(ErrorKind),
}

/// The place of the first line end of `buf` at or behind `from`: the index
/// of a carriage return that a line feed follows.
pub open spec fn find_crlf(buf: Seq<u8>, from: int) -> Option<int>
    decreases buf.len() - from,
{
    if from < 0 || from + 1 >= buf.len() {
        None
    } else if buf[from] == 13 && buf[from + 1] == 10 {
        Some(from)
    } else {
        find_crlf(buf, from + 1)
    }
}

/// What is left of `buf` behind its first `n` bytes.
pub open spec fn after(buf: Seq<u8>, n: nat) -> Seq<u8> {
    if n <= buf.len() {
        buf.skip(n as int)
    } else {
        Seq::empty()
    }
}

/// The body of the first line of `buf`, which must begin with `prefix`: the
/// bytes between the prefix and the first line end. It takes the line with
/// its end.
pub open spec fn head(buf: Seq<u8>, prefix: u8) -> Parsed<Seq<u8>> {
    if buf.len() == 0 {
        Parsed::Failed(ErrorKind::NotComplete)
    } else if buf[0] != prefix {
        Parsed::Failed(ErrorKind::InvalidFrameType)
    } else {
        match find_crlf(buf, 1) {
            Some(e) => Parsed::Complete(buf.subrange(1, e), (e + 2) as nat),
            None => Parsed::Failed(ErrorKind::NotComplete),
        }
    }
}

/// A simple string at the front of `buf`.
pub open spec fn simple_string_grammar(buf: Seq<u8>) -> Parsed<FrameView> {
    match head(buf, SIMPLE_STRING) {
        Parsed::Complete(body, n) => Parsed::Complete(FrameView::SimpleString(text_of(body)), n),
        Parsed::Failed(k) => Parsed::Failed(k),
    }
}

/// A simple error at the front of `buf`.
pub open spec fn simple_error_grammar(buf: Seq<u8>) -> Parsed<FrameView> {
    match head(buf, SIMPLE_ERROR) {
        Parsed::Complete(body, n) => Parsed::Complete(FrameView::Error(text_of(body)), n),
        Parsed::Failed(k) => Parsed::Failed(k),
    }
}

/// An integer at the front of `buf`.
pub open spec fn integer_grammar(buf: Seq<u8>) -> Parsed<FrameView> {
    match head(buf, INTEGER) {
        Parsed::Complete(body, n) => match i64_value(body) {
            Some(i) => Parsed::Complete(FrameView::Integer(i), n),
            None => Parsed::Failed(ErrorKind::ParseInt),
        },
        Parsed::Failed(k) => Parsed::Failed(k),
    }
}

/// A boolean at the front of `buf`.
pub open spec fn boolean_grammar(buf: Seq<u8>) -> Parsed<FrameView> {
    match head(buf, BOOLEAN) {
        Parsed::Complete(body, n) => if body == seq![116u8] {
            Parsed::Complete(FrameView::Boolean(true), n)
        } else if body == seq![102u8] {
            Parsed::Complete(FrameView::Boolean(false), n)
        } else {
            Parsed::Failed(ErrorKind::InvalidFrame)
        },
        Parsed::Failed(k) => Parsed::Failed(k),
    }
}

/// The null value at the front of `buf`.
pub open spec fn null_grammar(buf: Seq<u8>) -> Parsed<FrameView> {
    match head(buf, NULL) {
        Parsed::Complete(body, n) => if body.len() == 0 {
            Parsed::Complete(FrameView::Null, n)
        } else {
            Parsed::Failed(ErrorKind::InvalidFrame)
        },
        Parsed::Failed(k) => Parsed::Failed(k),
    }
}

/// A double at the front of `buf`.
pub open spec fn double_grammar(buf: Seq<u8>) -> Parsed<FrameView> {
    match head(buf, DOUBLE) {
        Parsed::Complete(body, n) => match double_value(body) {
            Some(d) => Parsed::Complete(FrameView::Double(d), n),
            None => Parsed::Failed(ErrorKind::ParseFloat),
        },
        Parsed::Failed(k) => Parsed::Failed(k),
    }
}

/// A line with the given prefix and the body `-1` at the front of `buf`,
/// read as `value`.
pub open spec fn sentinel_grammar(buf: Seq<u8>, prefix: u8, value: FrameView) -> Parsed<FrameView> {
    match head(buf, prefix) {
        Parsed::Complete(body, n) => if body == minus_one() {
            Parsed::Complete(value, n)
        } else {
            Parsed::Failed(ErrorKind::InvalidFrameType)
        },
        Parsed::Failed(k) => Parsed::Failed(k),
    }
}

/// The null bulk string at the front of `buf`.
pub open spec fn null_bulk_string_grammar(buf: Seq<u8>) -> Parsed<FrameView> {
    sentinel_grammar(buf, BULK_STRING, FrameView::NullBulkString)
}

/// The null array at the front of `buf`.
pub open spec fn null_array_grammar(buf: Seq<u8>) -> Parsed<FrameView> {
    sentinel_grammar(buf, ARRAY, FrameView::NullArray)
}

/// Whether `buf` begins with a line of the given prefix whose body is `-1`.
pub open spec fn is_sentinel(buf: Seq<u8>, prefix: u8) -> bool {
    head(buf, prefix) matches Parsed::Complete(body, _) && body == minus_one()
}

/// A bulk string at the front of `buf`: its length on a line, then as many
/// bytes and a line end. Nothing is read before all of them are there.
pub open spec fn bulk_string_grammar(buf: Seq<u8>) -> Parsed<FrameView> {
    match head(buf, BULK_STRING) {
        Parsed::Complete(body, h) => if body == minus_one() {
            Parsed::Failed(ErrorKind::InvalidFrameType)
        } else {
            match bounded_numeral(body, usize::MAX as nat) {
                Some(n) => if buf.len() < h + n + 2 {
                    Parsed::Failed(ErrorKind::NotComplete)
                } else if buf[(h + n) as int] != 13 || buf[(h + n + 1) as int] != 10 {
                    Parsed::Failed(ErrorKind::InvalidFrameLength(n))
                } else {
                    Parsed::Complete(
                        FrameView::BulkString(buf.subrange(h as int, (h + n) as int)),
                        h + n + 2,
                    )
                },
                None => Parsed::Failed(ErrorKind::ParseInt),
            }
        },
        Parsed::Failed(k) => Parsed::Failed(k),
    }
}

/// The line that opens a frame of many parts, at the front of `buf`: the
/// number of parts.
pub open spec fn count_grammar(buf: Seq<u8>, prefix: u8) -> Parsed<nat> {
    match head(buf, prefix) {
        Parsed::Complete(body, h) => match bounded_numeral(body, usize::MAX as nat) {
            Some(n) => Parsed::Complete(n, h),
            None => Parsed::Failed(ErrorKind::ParseInt),
        },
        Parsed::Failed(k) => Parsed::Failed(k),
    }
}

/// A line takes at least its prefix and its end, and no more than the
/// buffer holds.
pub proof fn lemma_head_bounds(buf: Seq<u8>, prefix: u8)
    ensures
        head(buf, prefix) matches Parsed::Complete(body, n) ==> 3 <= n <= buf.len() && body.len()
            == n - 3 && buf[n - 2] == 13 && buf[n - 1] == 10,
{
    lemma_find_crlf(buf, 1);
}

/// The first line end behind `from` is a line end, lies within the buffer,
/// and none comes before it; where none is found there is none.
pub proof fn lemma_find_crlf(buf: Seq<u8>, from: int)
    requires
        0 <= from,
    ensures
        match find_crlf(buf, from) {
            Some(e) => from <= e && e + 1 < buf.len() && buf[e] == 13 && buf[e + 1] == 10
                && forall|i: int| from <= i < e ==> !(buf[i] == 13 && #[trigger] buf[i + 1] == 10),
            None => forall|i: int|
                from <= i && i + 1 < buf.len() ==> !(buf[i] == 13 && #[trigger] buf[i + 1] == 10),
        },
    decreases buf.len() - from,
{
    if from + 1 < buf.len() && !(buf[from] == 13 && buf[from + 1] == 10) {
        lemma_find_crlf(buf, from + 1);
    }
}

/// A line end with none before it is the first.
pub proof fn lemma_find_crlf_at(buf: Seq<u8>, from: int, e: int)
    requires
        0 <= from <= e,
        e + 1 < buf.len(),
        buf[e] == 13,
        buf[e + 1] == 10,
        forall|i: int| from <= i < e ==> buf[i] != 13,
    ensures
        find_crlf(buf, from) == Some(e),
    decreases e - from,
{
    if from < e {
        lemma_find_crlf_at(buf, from + 1, e);
    }
}

/// `n` frames at the front of `buf`, one behind the other.
pub open spec fn items_grammar(buf: Seq<u8>, n: nat) -> Parsed<Seq<FrameView>>
    decreases buf.len(), n + 2,
{
    if n == 0 {
        Parsed::Complete(Seq::empty(), 0)
    } else {
        match frame_grammar(buf) {
            Parsed::Complete(first, c) => match items_grammar(after(buf, c), (n - 1) as nat) {
                Parsed::Complete(rest, d) => Parsed::Complete(seq![first] + rest, c + d),
                Parsed::Failed(k) => Parsed::Failed(k),
            },
            Parsed::Failed(k) => Parsed::Failed(k),
        }
    }
}

/// `n` pairs at the front of `buf`, one behind the other: each a key,
/// written as a simple string, and a frame.
pub open spec fn pairs_grammar(buf: Seq<u8>, n: nat) -> Parsed<Seq<(Seq<char>, FrameView)>>
    decreases buf.len(), n + 2,
{
    if n == 0 {
        Parsed::Complete(Seq::empty(), 0)
    } else {
        match head(buf, SIMPLE_STRING) {
            Parsed::Complete(body, c) => match frame_grammar(after(buf, c)) {
                Parsed::Complete(value, d) => match pairs_grammar(
                    after(after(buf, c), d),
                    (n - 1) as nat,
                ) {
                    Parsed::Complete(rest, e) => Parsed::Complete(
                        seq![(text_of(body), value)] + rest,
                        c + d + e,
                    ),
                    Parsed::Failed(k) => Parsed::Failed(k),
                },
                Parsed::Failed(k) => Parsed::Failed(k),
            },
            Parsed::Failed(k) => Parsed::Failed(k),
        }
    }
}

/// The map that holds the pairs of `pairs`, put in one after the other, so
/// that of two pairs with one key the later stays.
pub open spec fn collected(pairs: Seq<(Seq<char>, FrameView)>) -> Seq<(Seq<char>, FrameView)>
    decreases pairs.len(),
{
    if pairs.len() == 0 {
        Seq::empty()
    } else {
        upsert(collected(pairs.drop_last()), pairs.last().0, pairs.last().1)
    }
}

/// The frames behind a line that states their number, at the front of
/// `buf`.
pub open spec fn listing_grammar(buf: Seq<u8>, prefix: u8) -> Parsed<Seq<FrameView>>
    decreases buf.len(), 0nat,
{
    match count_grammar(buf, prefix) {
        Parsed::Complete(n, h) => {
            proof {
                lemma_head_bounds(buf, prefix);
            }
            match items_grammar(after(buf, h), n) {
                Parsed::Complete(items, c) => Parsed::Complete(items, h + c),
                Parsed::Failed(k) => Parsed::Failed(k),
            }
        },
        Parsed::Failed(k) => Parsed::Failed(k),
    }
}

/// An array at the front of `buf`.
pub open spec fn array_grammar(buf: Seq<u8>) -> Parsed<FrameView>
    decreases buf.len(), 1nat,
{
    if is_sentinel(buf, ARRAY) {
        Parsed::Failed(ErrorKind::InvalidFrameType)
    } else {
        match listing_grammar(buf, ARRAY) {
            Parsed::Complete(items, n) => Parsed::Complete(FrameView::Array(items), n),
            Parsed::Failed(k) => Parsed::Failed(k),
        }
    }
}

/// A set at the front of `buf`.
pub open spec fn set_grammar(buf: Seq<u8>) -> Parsed<FrameView>
    decreases buf.len(), 1nat,
{
    match listing_grammar(buf, SET) {
        Parsed::Complete(items, n) => Parsed::Complete(FrameView::RespSet(items), n),
        Parsed::Failed(k) => Parsed::Failed(k),
    }
}

/// A map at the front of `buf`.
pub open spec fn map_grammar(buf: Seq<u8>) -> Parsed<FrameView>
    decreases buf.len(), 1nat,
{
    match count_grammar(buf, MAP) {
        Parsed::Complete(n, h) => {
            proof {
                lemma_head_bounds(buf, MAP);
            }
            match pairs_grammar(after(buf, h), n) {
                Parsed::Complete(pairs, c) => Parsed::Complete(
                    FrameView::RespMap(collected(pairs)),
                    h + c,
                ),
                Parsed::Failed(k) => Parsed::Failed(k),
            }
        },
        Parsed::Failed(k) => Parsed::Failed(k),
    }
}

/// The frame at the front of `buf`, of the kind that its first byte names.
pub open spec fn frame_grammar(buf: Seq<u8>) -> Parsed<FrameView>
    decreases buf.len(), 2nat,
{
    if buf.len() == 0 {
        Parsed::Failed(ErrorKind::NotComplete)
    } else if buf[0] == SIMPLE_STRING {
        simple_string_grammar(buf)
    } else if buf[0] == SIMPLE_ERROR {
        simple_error_grammar(buf)
    } else if buf[0] == INTEGER {
        integer_grammar(buf)
    } else if buf[0] == BULK_STRING {
        if is_sentinel(buf, BULK_STRING) {
            null_bulk_string_grammar(buf)
        } else {
            bulk_string_grammar(buf)
        }
    } else if buf[0] == ARRAY {
        if is_sentinel(buf, ARRAY) {
            null_array_grammar(buf)
        } else {
            array_grammar(buf)
        }
    } else if buf[0] == NULL {
        null_grammar(buf)
    } else if buf[0] == BOOLEAN {
        boolean_grammar(buf)
    } else if buf[0] == DOUBLE {
        double_grammar(buf)
    } else if buf[0] == MAP {
        map_grammar(buf)
    } else if buf[0] == SET {
        set_grammar(buf)
    } else {
        Parsed::Failed(ErrorKind::InvalidFrameType)
    }
}

} // verus!
