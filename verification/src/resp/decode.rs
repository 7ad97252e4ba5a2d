//! The decoder: bytes to frames. It reads a frame from the front of a
//! buffer and takes its bytes out, or leaves the buffer as it is.

use bytes::BytesMut;
use crate::resp::{
    frames_view, BulkString, ErrorKind, FrameValue, FrameView, RespArray, RespDecode, RespError,
    RespFrame, RespNull, RespNullArray, RespNullBulkString, RespSet, SimpleError, SimpleString,
};
use crate::resp::append::push_range;
use crate::resp::buffer::contents;
use crate::resp::decimal::{bounded_numeral, parse_i64, parse_usize};
use crate::resp::double::RespDouble;
use crate::resp::grammar::{
    after, array_grammar, boolean_grammar, bulk_string_grammar, collected, double_grammar,
    find_crlf, frame_grammar, head, integer_grammar, items_grammar, listing_grammar, map_grammar,
    null_array_grammar, null_bulk_string_grammar, null_grammar, pairs_grammar, set_grammar,
    simple_error_grammar, simple_string_grammar, Parsed,
};
use crate::resp::map::RespMap;
use crate::resp::text::{read_text, text_of};
use crate::resp::wire::{
    minus_one, ARRAY, BOOLEAN, BULK_STRING, DOUBLE, INTEGER, MAP, NULL, SET, SIMPLE_ERROR,
    SIMPLE_STRING,
};
use vstd::prelude::*;
use vstd::slice::slice_subrange;

verus! {

/// Whether what was read, a value and the number of bytes it took or an
/// error, is what the grammar says of a buffer of `len` bytes.
pub open spec fn agrees<T: FrameValue>(
    r: Result<(T, usize), RespError>,
    p: Parsed<FrameView>,
    len: nat,
) -> bool {
    match p {
        Parsed::Complete(v, n) => r matches Ok(pair) && pair.0.frame() == v && pair.1 == n && 0 < n
            <= len,
        Parsed::Failed(k) => r matches Err(e) && e@ == k,
    }
}

/// The error for bytes that are no frame of the kind that was expected;
/// its message is `expected`, the words that name that kind.
fn wrong_type(expected: &str) -> (e: RespError)
    ensures
        e matches RespError::InvalidFrameType(message) && message@ == expected@,
{
    RespError::InvalidFrameType(expected.to_string())
}

/// The error for a payload that its kind does not allow; its message is
/// `expected`, the words that name what is allowed.
fn wrong_payload(expected: &str) -> (e: RespError)
    ensures
        e matches RespError::InvalidFrame(message) && message@ == expected@,
{
    RespError::InvalidFrame(expected.to_string())
}

/// The words that name the kind of frame with the given prefix.
fn kind_of(prefix: u8) -> (words: &'static str)
    ensures
        words@ == kind_words(prefix),
{
    if prefix == SIMPLE_STRING {
        "expect: SimpleString(+)"
    } else if prefix == SIMPLE_ERROR {
        "expect: SimpleError(-)"
    } else if prefix == INTEGER {
        "expect: Integer(:)"
    } else if prefix == BULK_STRING {
        "expect: BulkString($)"
    } else if prefix == ARRAY {
        "expect: Array(*)"
    } else if prefix == NULL {
        "expect: Null(_)"
    } else if prefix == BOOLEAN {
        "expect: Boolean(#)"
    } else if prefix == DOUBLE {
        "expect: Double(,)"
    } else if prefix == MAP {
        "expect: Map(%)"
    } else if prefix == SET {
        "expect: Set(~)"
    } else {
        "expect: the first byte of a frame"
    }
}

/// The words that tell a peer which kind of frame was expected: the name
/// of the kind with the given prefix, and the prefix itself.
pub open spec fn kind_words(prefix: u8) -> Seq<char> {
    if prefix == SIMPLE_STRING {
        "expect: SimpleString(+)"@
    } else if prefix == SIMPLE_ERROR {
        "expect: SimpleError(-)"@
    } else if prefix == INTEGER {
        "expect: Integer(:)"@
    } else if prefix == BULK_STRING {
        "expect: BulkString($)"@
    } else if prefix == ARRAY {
        "expect: Array(*)"@
    } else if prefix == NULL {
        "expect: Null(_)"@
    } else if prefix == BOOLEAN {
        "expect: Boolean(#)"@
    } else if prefix == DOUBLE {
        "expect: Double(,)"@
    } else if prefix == MAP {
        "expect: Map(%)"@
    } else if prefix == SET {
        "expect: Set(~)"@
    } else {
        "expect: the first byte of a frame"@
    }
}

/// Finds the first line end of `buf` at or behind `from`.
pub fn find_line_end(buf: &[u8], from: usize) -> (r: Option<usize>)
    ensures
        match find_crlf(buf@, from as int) {
            Some(e) => r == Some(e as usize) && from <= e && e + 1 < buf.len(),
            None => r is None,
        },
{
    if buf.len() < 2 {
        return None;
    }
    let mut i: usize = from;
    while i < buf.len() - 1
        invariant
            from <= i,
            buf.len() >= 2,
            find_crlf(buf@, from as int) == find_crlf(buf@, i as int),
        decreases buf.len() - i,
    {
        if buf[i] == 13 && buf[i + 1] == 10 {
            return Some(i);
        }
        i += 1;
    }
    None
}

/// Reads the first line of `buf`, which must begin with `prefix`, and gives
/// the place of its end: the body lies between index 1 and that place.
fn read_line(buf: &[u8], prefix: u8) -> (r: Result<usize, RespError>)
    ensures
        match head(buf@, prefix) {
            Parsed::Complete(body, n) => r matches Ok(e) && e + 2 == n && 1 <= e && n <= buf.len()
                && body == buf@.subrange(1, e as int),
            Parsed::Failed(k) => r matches Err(err) && err@ == k,
        },
{
    if buf.len() == 0 {
        return Err(RespError::NotComplete);
    }
    if buf[0] != prefix {
        return Err(wrong_type(kind_of(prefix)));
    }
    match find_line_end(buf, 1) {
        Some(e) => Ok(e),
        None => Err(RespError::NotComplete),
    }
}

/// Tests whether the body of a line that ends at `e` is `-1`.
fn body_is_minus_one(buf: &[u8], e: usize) -> (r: bool)
    requires
        1 <= e <= buf.len(),
    ensures
        r == (buf@.subrange(1, e as int) == minus_one()),
{
    let r = e == 3 && buf[1] == 45 && buf[2] == 49;
    proof {
        let body = buf@.subrange(1, e as int);
        if r {
            assert(body =~= minus_one());
        } else if body == minus_one() {
            assert(body.len() == 2);
        }
    }
    r
}

/// Reads a line of text with the given prefix from the front of `buf`.
fn parse_text_line(buf: &[u8], prefix: u8) -> (r: Result<(String, usize), RespError>)
    ensures
        match head(buf@, prefix) {
            Parsed::Complete(body, n) => r matches Ok(pair) && pair.0@ == text_of(body)
                && pair.1 == n && 0 < n <= buf.len(),
            Parsed::Failed(k) => r matches Err(err) && err@ == k,
        },
{
    match read_line(buf, prefix) {
        Ok(e) => {
            let text = read_text(slice_subrange(buf, 1, e));
            Ok((text, e + 2))
        },
        Err(err) => Err(err),
    }
}

/// Reads a simple string from the front of `buf`.
pub fn parse_simple_string(buf: &[u8]) -> (r: Result<(SimpleString, usize), RespError>)
    ensures
        agrees(r, simple_string_grammar(buf@), buf@.len()),
{
    match parse_text_line(buf, SIMPLE_STRING) {
        Ok((text, n)) => Ok((SimpleString(text), n)),
        Err(err) => Err(err),
    }
}

/// Reads a simple error from the front of `buf`.
pub fn parse_simple_error(buf: &[u8]) -> (r: Result<(SimpleError, usize), RespError>)
    ensures
        agrees(r, simple_error_grammar(buf@), buf@.len()),
{
    match parse_text_line(buf, SIMPLE_ERROR) {
        Ok((text, n)) => Ok((SimpleError(text), n)),
        Err(err) => Err(err),
    }
}

/// Reads an integer from the front of `buf`.
pub fn parse_integer(buf: &[u8]) -> (r: Result<(i64, usize), RespError>)
    ensures
        agrees(r, integer_grammar(buf@), buf@.len()),
{
    match read_line(buf, INTEGER) {
        Ok(e) => match parse_i64(slice_subrange(buf, 1, e)) {
            Some(i) => Ok((i, e + 2)),
            None => Err(RespError::ParseIntError),
        },
        Err(err) => Err(err),
    }
}

/// Reads a boolean from the front of `buf`.
pub fn parse_boolean(buf: &[u8]) -> (r: Result<(bool, usize), RespError>)
    ensures
        agrees(r, boolean_grammar(buf@), buf@.len()),
{
    match read_line(buf, BOOLEAN) {
        Ok(e) => {
            let ghost body = buf@.subrange(1, e as int);
            if e == 2 && buf[1] == 116 {
                proof {
                    assert(body =~= seq![116u8]);
                }
                Ok((true, e + 2))
            } else if e == 2 && buf[1] == 102 {
                proof {
                    assert(body =~= seq![102u8]);
                    assert(body[0] != 116);
                }
                Ok((false, e + 2))
            } else {
                proof {
                    if body == seq![116u8] || body == seq![102u8] {
                        assert(body[0] == buf@[1]);
                    }
                }
                Err(wrong_payload("expect: t or f"))
            }
        },
        Err(err) => Err(err),
    }
}

/// Reads the null value from the front of `buf`.
pub fn parse_null(buf: &[u8]) -> (r: Result<(RespNull, usize), RespError>)
    ensures
        agrees(r, null_grammar(buf@), buf@.len()),
{
    match read_line(buf, NULL) {
        Ok(e) => {
            if e == 1 {
                Ok((RespNull, e + 2))
            } else {
                Err(wrong_payload("expect: no payload"))
            }
        },
        Err(err) => Err(err),
    }
}

/// Reads a double from the front of `buf`.
pub fn parse_double(buf: &[u8]) -> (r: Result<(RespDouble, usize), RespError>)
    ensures
        agrees(r, double_grammar(buf@), buf@.len()),
{
    match read_line(buf, DOUBLE) {
        Ok(e) => match RespDouble::parse(slice_subrange(buf, 1, e)) {
            Some(d) => Ok((d, e + 2)),
            None => Err(RespError::ParseFloatError),
        },
        Err(err) => Err(err),
    }
}

/// Reads the null bulk string from the front of `buf`.
pub fn parse_null_bulk_string(buf: &[u8]) -> (r: Result<(RespNullBulkString, usize), RespError>)
    ensures
        agrees(r, null_bulk_string_grammar(buf@), buf@.len()),
{
    match read_line(buf, BULK_STRING) {
        Ok(e) => {
            if body_is_minus_one(buf, e) {
                Ok((RespNullBulkString, e + 2))
            } else {
                Err(wrong_type("expect: NullBulkString($-1)"))
            }
        },
        Err(err) => Err(err),
    }
}

/// Reads the null array from the front of `buf`.
pub fn parse_null_array(buf: &[u8]) -> (r: Result<(RespNullArray, usize), RespError>)
    ensures
        agrees(r, null_array_grammar(buf@), buf@.len()),
{
    match read_line(buf, ARRAY) {
        Ok(e) => {
            if body_is_minus_one(buf, e) {
                Ok((RespNullArray, e + 2))
            } else {
                Err(wrong_type("expect: NullArray(*-1)"))
            }
        },
        Err(err) => Err(err),
    }
}

/// Reads the bytes of a bulk string whose first line ends at `e`.
fn parse_bulk_body(buf: &[u8], e: usize) -> (r: Result<(BulkString, usize), RespError>)
    requires
        head(buf@, BULK_STRING) == Parsed::Complete(buf@.subrange(1, e as int), (e + 2) as nat),
        1 <= e,
        e + 2 <= buf.len(),
        buf@.subrange(1, e as int) != minus_one(),
    ensures
        agrees(r, bulk_string_grammar(buf@), buf@.len()),
{
    let n = match parse_usize(slice_subrange(buf, 1, e)) {
        Some(n) => n,
        None => {
            return Err(RespError::ParseIntError);
        },
    };
    let start = e + 2;
    if n > usize::MAX - 2 || buf.len() - start < n + 2 {
        return Err(RespError::NotComplete);
    }
    if buf[start + n] != 13 || buf[start + n + 1] != 10 {
        return Err(RespError::InvalidFrameLength(n));
    }
    let mut bytes: Vec<u8> = Vec::with_capacity(n);
    push_range(&mut bytes, buf, start, start + n);
    Ok((BulkString(bytes), start + n + 2))
}

/// Reads a bulk string from the front of `buf`.
pub fn parse_bulk_string(buf: &[u8]) -> (r: Result<(BulkString, usize), RespError>)
    ensures
        agrees(r, bulk_string_grammar(buf@), buf@.len()),
{
    match read_line(buf, BULK_STRING) {
        Ok(e) => {
            if body_is_minus_one(buf, e) {
                Err(wrong_type(kind_of(BULK_STRING)))
            } else {
                parse_bulk_body(buf, e)
            }
        },
        Err(err) => Err(err),
    }
}

/// What was read so far, with what the rest of the buffer is read as: the
/// values one behind the other, and the bytes taken added up.
pub open spec fn joined<T>(front: Seq<T>, taken: nat, rest: Parsed<Seq<T>>) -> Parsed<Seq<T>> {
    match rest {
        Parsed::Complete(items, n) => Parsed::Complete(front + items, taken + n),
        Parsed::Failed(k) => Parsed::Failed(k),
    }
}

/// Reads the line that opens a frame of many parts, whose end is at `e`:
/// the number of parts.
fn parse_count(buf: &[u8], e: usize) -> (r: Result<usize, RespError>)
    requires
        1 <= e <= buf.len(),
    ensures
        match bounded_numeral(buf@.subrange(1, e as int), usize::MAX as nat) {
            Some(n) => r == Ok::<usize, RespError>(n as usize),
            None => r matches Err(err) && err@ == ErrorKind::ParseInt,
        },
{
    match parse_usize(slice_subrange(buf, 1, e)) {
        Some(n) => Ok(n),
        None => Err(RespError::ParseIntError),
    }
}

/// Reads `n` frames from the front of `buf`, one behind the other.
fn parse_items(buf: &[u8], n: usize) -> (r: Result<(Vec<RespFrame>, usize), RespError>)
    ensures
        match items_grammar(buf@, n as nat) {
            Parsed::Complete(items, c) => r matches Ok(pair) && frames_view(pair.0@) == items
                && pair.1 == c && c <= buf.len(),
            Parsed::Failed(k) => r matches Err(e) && e@ == k,
        },
    decreases buf@.len(), n + 2,
{
    let mut items: Vec<RespFrame> = Vec::new();
    let mut pos: usize = 0;
    let mut i: usize = 0;
    proof {
        assert(after(buf@, 0) =~= buf@);
    }
    while i < n
        invariant
            i <= n,
            pos <= buf.len(),
            items_grammar(buf@, n as nat) == joined(
                frames_view(items@),
                pos as nat,
                items_grammar(after(buf@, pos as nat), (n - i) as nat),
            ),
        decreases n - i,
    {
        let rest = slice_subrange(buf, pos, buf.len());
        let ghost cur = after(buf@, pos as nat);
        let ghost m = (n - i) as nat;
        let ghost front = frames_view(items@);
        match parse_frame(rest) {
            Ok((frame, c)) => {
                proof {
                    assert(after(cur, c as nat) =~= after(buf@, (pos + c) as nat));
                    assert(items@.push(frame).drop_last() =~= items@);
                    let inner = items_grammar(after(cur, c as nat), (m - 1) as nat);
                    match inner {
                        Parsed::Complete(more, d) => {
                            assert(front + (seq![frame@] + more) =~= front.push(frame@) + more);
                        },
                        Parsed::Failed(k) => {},
                    }
                }
                items.push(frame);
                pos = pos + c;
                i = i + 1;
            },
            Err(e) => {
                return Err(e);
            },
        }
    }
    Ok((items, pos))
}

/// Reads `n` pairs from the front of `buf`, one behind the other, and puts
/// each into a map.
fn parse_pairs(buf: &[u8], n: usize) -> (r: Result<(RespMap, usize), RespError>)
    ensures
        match pairs_grammar(buf@, n as nat) {
            Parsed::Complete(pairs, c) => r matches Ok(pair) && pair.0@ == collected(pairs)
                && pair.1 == c && c <= buf.len(),
            Parsed::Failed(k) => r matches Err(e) && e@ == k,
        },
    decreases buf@.len(), n + 2,
{
    let mut map = RespMap::new();
    let mut pos: usize = 0;
    let mut i: usize = 0;
    let ghost mut seen: Seq<(Seq<char>, FrameView)> = Seq::empty();
    proof {
        assert(after(buf@, 0) =~= buf@);
    }
    while i < n
        invariant
            i <= n,
            pos <= buf.len(),
            map@ == collected(seen),
            pairs_grammar(buf@, n as nat) == joined(
                seen,
                pos as nat,
                pairs_grammar(after(buf@, pos as nat), (n - i) as nat),
            ),
        decreases n - i,
    {
        let rest = slice_subrange(buf, pos, buf.len());
        let ghost cur = after(buf@, pos as nat);
        let ghost m = (n - i) as nat;
        let (key, c) = match parse_text_line(rest, SIMPLE_STRING) {
            Ok(pair) => pair,
            Err(e) => {
                return Err(e);
            },
        };
        let behind = slice_subrange(rest, c, rest.len());
        let (value, d) = match parse_frame(behind) {
            Ok(pair) => pair,
            Err(e) => {
                return Err(e);
            },
        };
        proof {
            let next = after(after(cur, c as nat), d as nat);
            assert(next =~= after(buf@, (pos + c + d) as nat));
            let entry = (key@, value@);
            assert(seen.push(entry).drop_last() =~= seen);
            let inner = pairs_grammar(next, (m - 1) as nat);
            match inner {
                Parsed::Complete(more, e) => {
                    assert(seen + (seq![entry] + more) =~= seen.push(entry) + more);
                },
                Parsed::Failed(k) => {},
            }
            seen = seen.push(entry);
        }
        map.insert(key, value);
        pos = pos + c + d;
        i = i + 1;
    }
    Ok((map, pos))
}

/// Reads the frames of an array or a set whose first line ends at `e`.
fn parse_listing_body(buf: &[u8], prefix: u8, e: usize) -> (r: Result<
    (Vec<RespFrame>, usize),
    RespError,
>)
    requires
        head(buf@, prefix) == Parsed::Complete(buf@.subrange(1, e as int), (e + 2) as nat),
        1 <= e,
        e + 2 <= buf.len(),
    ensures
        match listing_grammar(buf@, prefix) {
            Parsed::Complete(items, c) => r matches Ok(pair) && frames_view(pair.0@) == items
                && pair.1 == c && 0 < c <= buf.len(),
            Parsed::Failed(k) => r matches Err(e) && e@ == k,
        },
    decreases buf@.len(), 0nat,
{
    let n = match parse_count(buf, e) {
        Ok(n) => n,
        Err(err) => {
            return Err(err);
        },
    };
    let rest = slice_subrange(buf, e + 2, buf.len());
    match parse_items(rest, n) {
        Ok((items, c)) => Ok((items, e + 2 + c)),
        Err(err) => Err(err),
    }
}

/// Reads an array from the front of `buf`.
pub fn parse_array(buf: &[u8]) -> (r: Result<(RespArray, usize), RespError>)
    ensures
        agrees(r, array_grammar(buf@), buf@.len()),
    decreases buf@.len(), 1nat,
{
    match read_line(buf, ARRAY) {
        Ok(e) => {
            if body_is_minus_one(buf, e) {
                Err(wrong_type(kind_of(ARRAY)))
            } else {
                match parse_listing_body(buf, ARRAY, e) {
                    Ok((items, n)) => Ok((RespArray(items), n)),
                    Err(err) => Err(err),
                }
            }
        },
        Err(err) => Err(err),
    }
}

/// Reads a set from the front of `buf`.
pub fn parse_set(buf: &[u8]) -> (r: Result<(RespSet, usize), RespError>)
    ensures
        agrees(r, set_grammar(buf@), buf@.len()),
    decreases buf@.len(), 1nat,
{
    match read_line(buf, SET) {
        Ok(e) => match parse_listing_body(buf, SET, e) {
            Ok((items, n)) => Ok((RespSet(items), n)),
            Err(err) => Err(err),
        },
        Err(err) => Err(err),
    }
}

/// Reads a map from the front of `buf`.
pub fn parse_map(buf: &[u8]) -> (r: Result<(RespMap, usize), RespError>)
    ensures
        agrees(r, map_grammar(buf@), buf@.len()),
    decreases buf@.len(), 1nat,
{
    let e = match read_line(buf, MAP) {
        Ok(e) => e,
        Err(err) => {
            return Err(err);
        },
    };
    let n = match parse_count(buf, e) {
        Ok(n) => n,
        Err(err) => {
            return Err(err);
        },
    };
    let rest = slice_subrange(buf, e + 2, buf.len());
    match parse_pairs(rest, n) {
        Ok((map, c)) => Ok((map, e + 2 + c)),
        Err(err) => Err(err),
    }
}

/// Reads the frame at the front of `buf`, of the kind that its first byte
/// names.
pub fn parse_frame(buf: &[u8]) -> (r: Result<(RespFrame, usize), RespError>)
    ensures
        agrees(r, frame_grammar(buf@), buf@.len()),
    decreases buf@.len(), 2nat,
{
    if buf.len() == 0 {
        return Err(RespError::NotComplete);
    }
    let first: u8 = buf[0];
    if first == SIMPLE_STRING {
        match parse_simple_string(buf) {
            Ok((v, n)) => Ok((RespFrame::SimpleSting(v), n)),
            Err(e) => Err(e),
        }
    } else if first == SIMPLE_ERROR {
        match parse_simple_error(buf) {
            Ok((v, n)) => Ok((RespFrame::Error(v), n)),
            Err(e) => Err(e),
        }
    } else if first == INTEGER {
        match parse_integer(buf) {
            Ok((v, n)) => Ok((RespFrame::Integer(v), n)),
            Err(e) => Err(e),
        }
    } else if first == BULK_STRING {
        match read_line(buf, BULK_STRING) {
            Ok(e) => {
                if body_is_minus_one(buf, e) {
                    Ok((RespFrame::NullBulkString(RespNullBulkString), e + 2))
                } else {
                    match parse_bulk_body(buf, e) {
                        Ok((v, n)) => Ok((RespFrame::BulkString(v), n)),
                        Err(err) => Err(err),
                    }
                }
            },
            Err(err) => Err(err),
        }
    } else if first == ARRAY {
        match read_line(buf, ARRAY) {
            Ok(e) => {
                if body_is_minus_one(buf, e) {
                    Ok((RespFrame::NullArray(RespNullArray), e + 2))
                } else {
                    match parse_listing_body(buf, ARRAY, e) {
                        Ok((items, n)) => Ok((RespFrame::Array(RespArray(items)), n)),
                        Err(err) => Err(err),
                    }
                }
            },
            Err(err) => Err(err),
        }
    } else if first == NULL {
        match parse_null(buf) {
            Ok((v, n)) => Ok((RespFrame::Null(v), n)),
            Err(e) => Err(e),
        }
    } else if first == BOOLEAN {
        match parse_boolean(buf) {
            Ok((v, n)) => Ok((RespFrame::Boolean(v), n)),
            Err(e) => Err(e),
        }
    } else if first == DOUBLE {
        match parse_double(buf) {
            Ok((v, n)) => Ok((RespFrame::Double(v), n)),
            Err(e) => Err(e),
        }
    } else if first == MAP {
        match parse_map(buf) {
            Ok((v, n)) => Ok((RespFrame::RespMap(v), n)),
            Err(e) => Err(e),
        }
    } else if first == SET {
        match parse_set(buf) {
            Ok((v, n)) => Ok((RespFrame::RespSet(v), n)),
            Err(e) => Err(e),
        }
    } else {
        Err(wrong_type(kind_of(first)))
    }
}

/// Takes the bytes of a value that was read out of the buffer, or leaves
/// the buffer as it is where none was read.
fn consume<T>(buf: &mut BytesMut, parsed: Result<(T, usize), RespError>) -> (res: Result<
    T,
    RespError,
>)
    requires
        parsed matches Ok(pair) ==> pair.1 <= contents(*old(buf)).len(),
    ensures
        match parsed {
            Ok(pair) => res == Ok::<T, RespError>(pair.0) && contents(*final(buf)) == contents(
                *old(buf),
            ).skip(pair.1 as int),
            Err(e) => res == Err::<T, RespError>(e) && contents(*final(buf)) == contents(
                *old(buf),
            ),
        },
{
    match parsed {
        Ok((value, n)) => {
            let _ = buf.split_to(n);
            Ok(value)
        },
        Err(e) => Err(e),
    }
}

/// The number of bytes that a value took, without the value.
fn length_of<T>(parsed: Result<(T, usize), RespError>) -> (res: Result<usize, RespError>)
    ensures
        match parsed {
            Ok(pair) => res == Ok::<usize, RespError>(pair.1),
            Err(e) => res == Err::<usize, RespError>(e),
        },
{
    match parsed {
        Ok((_, n)) => Ok(n),
        Err(e) => Err(e),
    }
}

/// The bytes that `buf` holds, as a slice.
fn bytes_of(buf: &BytesMut) -> (s: &[u8])
    ensures
        s@ == contents(*buf),
{
    <BytesMut as AsRef<[u8]>>::as_ref(buf)
}

impl RespDecode for RespFrame {
    open spec fn grammar(buf: Seq<u8>) -> Parsed<FrameView> {
        frame_grammar(buf)
    }

    fn decode(buf: &mut BytesMut) -> (res: Result<Self, RespError>) {
        let parsed = parse_frame(bytes_of(buf));
        consume(buf, parsed)
    }

    fn expect_length(buf: &[u8]) -> (res: Result<usize, RespError>) {
        length_of(parse_frame(buf))
    }
}

impl RespDecode for SimpleString {
    open spec fn grammar(buf: Seq<u8>) -> Parsed<FrameView> {
        simple_string_grammar(buf)
    }

    fn decode(buf: &mut BytesMut) -> (res: Result<Self, RespError>) {
        let parsed = parse_simple_string(bytes_of(buf));
        consume(buf, parsed)
    }

    fn expect_length(buf: &[u8]) -> (res: Result<usize, RespError>) {
        length_of(parse_simple_string(buf))
    }
}

impl RespDecode for SimpleError {
    open spec fn grammar(buf: Seq<u8>) -> Parsed<FrameView> {
        simple_error_grammar(buf)
    }

    fn decode(buf: &mut BytesMut) -> (res: Result<Self, RespError>) {
        let parsed = parse_simple_error(bytes_of(buf));
        consume(buf, parsed)
    }

    fn expect_length(buf: &[u8]) -> (res: Result<usize, RespError>) {
        length_of(parse_simple_error(buf))
    }
}

impl RespDecode for i64 {
    open spec fn grammar(buf: Seq<u8>) -> Parsed<FrameView> {
        integer_grammar(buf)
    }

    fn decode(buf: &mut BytesMut) -> (res: Result<Self, RespError>) {
        let parsed = parse_integer(bytes_of(buf));
        consume(buf, parsed)
    }

    fn expect_length(buf: &[u8]) -> (res: Result<usize, RespError>) {
        length_of(parse_integer(buf))
    }
}

impl RespDecode for BulkString {
    open spec fn grammar(buf: Seq<u8>) -> Parsed<FrameView> {
        bulk_string_grammar(buf)
    }

    fn decode(buf: &mut BytesMut) -> (res: Result<Self, RespError>) {
        let parsed = parse_bulk_string(bytes_of(buf));
        consume(buf, parsed)
    }

    fn expect_length(buf: &[u8]) -> (res: Result<usize, RespError>) {
        length_of(parse_bulk_string(buf))
    }
}

impl RespDecode for RespNullBulkString {
    open spec fn grammar(buf: Seq<u8>) -> Parsed<FrameView> {
        null_bulk_string_grammar(buf)
    }

    fn decode(buf: &mut BytesMut) -> (res: Result<Self, RespError>) {
        let parsed = parse_null_bulk_string(bytes_of(buf));
        consume(buf, parsed)
    }

    fn expect_length(buf: &[u8]) -> (res: Result<usize, RespError>) {
        length_of(parse_null_bulk_string(buf))
    }
}

impl RespDecode for RespArray {
    open spec fn grammar(buf: Seq<u8>) -> Parsed<FrameView> {
        array_grammar(buf)
    }

    fn decode(buf: &mut BytesMut) -> (res: Result<Self, RespError>) {
        let parsed = parse_array(bytes_of(buf));
        consume(buf, parsed)
    }

    fn expect_length(buf: &[u8]) -> (res: Result<usize, RespError>) {
        length_of(parse_array(buf))
    }
}

impl RespDecode for RespNullArray {
    open spec fn grammar(buf: Seq<u8>) -> Parsed<FrameView> {
        null_array_grammar(buf)
    }

    fn decode(buf: &mut BytesMut) -> (res: Result<Self, RespError>) {
        let parsed = parse_null_array(bytes_of(buf));
        consume(buf, parsed)
    }

    fn expect_length(buf: &[u8]) -> (res: Result<usize, RespError>) {
        length_of(parse_null_array(buf))
    }
}

impl RespDecode for RespNull {
    open spec fn grammar(buf: Seq<u8>) -> Parsed<FrameView> {
        null_grammar(buf)
    }

    fn decode(buf: &mut BytesMut) -> (res: Result<Self, RespError>) {
        let parsed = parse_null(bytes_of(buf));
        consume(buf, parsed)
    }

    fn expect_length(buf: &[u8]) -> (res: Result<usize, RespError>) {
        length_of(parse_null(buf))
    }
}

impl RespDecode for bool {
    open spec fn grammar(buf: Seq<u8>) -> Parsed<FrameView> {
        boolean_grammar(buf)
    }

    fn decode(buf: &mut BytesMut) -> (res: Result<Self, RespError>) {
        let parsed = parse_boolean(bytes_of(buf));
        consume(buf, parsed)
    }

    fn expect_length(buf: &[u8]) -> (res: Result<usize, RespError>) {
        length_of(parse_boolean(buf))
    }
}

impl RespDecode for RespDouble {
    open spec fn grammar(buf: Seq<u8>) -> Parsed<FrameView> {
        double_grammar(buf)
    }

    fn decode(buf: &mut BytesMut) -> (res: Result<Self, RespError>) {
        let parsed = parse_double(bytes_of(buf));
        consume(buf, parsed)
    }

    fn expect_length(buf: &[u8]) -> (res: Result<usize, RespError>) {
        length_of(parse_double(buf))
    }
}

impl RespDecode for RespMap {
    open spec fn grammar(buf: Seq<u8>) -> Parsed<FrameView> {
        map_grammar(buf)
    }

    fn decode(buf: &mut BytesMut) -> (res: Result<Self, RespError>) {
        let parsed = parse_map(bytes_of(buf));
        consume(buf, parsed)
    }

    fn expect_length(buf: &[u8]) -> (res: Result<usize, RespError>) {
        length_of(parse_map(buf))
    }
}

impl RespDecode for RespSet {
    open spec fn grammar(buf: Seq<u8>) -> Parsed<FrameView> {
        set_grammar(buf)
    }

    fn decode(buf: &mut BytesMut) -> (res: Result<Self, RespError>) {
        let parsed = parse_set(bytes_of(buf));
        consume(buf, parsed)
    }

    fn expect_length(buf: &[u8]) -> (res: Result<usize, RespError>) {
        length_of(parse_set(buf))
    }
}

} // verus!
