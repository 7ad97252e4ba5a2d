//! What holds of the encoder and the decoder together.

use crate::resp::{entries_wf, frame_wf, frames_wf, ErrorKind, FrameView};
use crate::resp::decimal::{
    bounded_numeral, lemma_digits_value_of_nat_digits, lemma_nat_digits_shape,
    lemma_signed_value_of_text, nat_digits, signed_text,
};
use crate::resp::double::{lemma_double_text_plain, lemma_double_value_of_text};
use crate::resp::grammar::{
    after, collected, count_grammar, find_crlf, frame_grammar, head, is_sentinel, items_grammar,
    lemma_find_crlf, lemma_find_crlf_at, lemma_head_bounds, pairs_grammar, Parsed,
};
use crate::resp::map::{lemma_upsert_last, lemma_upsert_sorted, sorted_keys};
use crate::resp::text::{plain_line, plain_text};
use crate::resp::wire::{
    boolean_letter, crlf, lemma_wire_all_first, lemma_wire_entries_first, line, minus_one, wire,
    wire_all, wire_entries, ARRAY, BOOLEAN, BULK_STRING, DOUBLE, INTEGER, MAP, NULL, SET,
    SIMPLE_ERROR, SIMPLE_STRING,
};
use vstd::prelude::*;
use vstd::utf8::encode_utf8;

verus! {

/// A line whose body holds no line break is read back as that body, and
/// what follows the line is left over.
pub proof fn lemma_head_of_line(prefix: u8, body: Seq<u8>, tail: Seq<u8>)
    requires
        plain_line(body),
    ensures
        head(line(prefix, body) + tail, prefix) == Parsed::Complete(
            body,
            (body.len() + 3) as nat,
        ),
        (line(prefix, body) + tail)[0] == prefix,
        after(line(prefix, body) + tail, (body.len() + 3) as nat) == tail,
        line(prefix, body).len() == body.len() + 3,
{
    let buf = line(prefix, body) + tail;
    let e = 1 + body.len() as int;
    lemma_find_crlf_at(buf, 1, e);
    assert(buf.subrange(1, e) =~= body);
}

/// A numeral holds no line break, and neither does a numeral with a sign.
pub proof fn lemma_numerals_plain(n: nat, i: int)
    ensures
        plain_line(nat_digits(n)),
        plain_line(signed_text(i)),
        plain_line(minus_one()),
{
    lemma_nat_digits_shape(n);
    let m = if i < 0 {
        (-i) as nat
    } else {
        i as nat
    };
    lemma_nat_digits_shape(m);
}

/// The line that states a number of parts is read back as that number.
pub proof fn lemma_count_of_line(prefix: u8, n: nat, tail: Seq<u8>)
    requires
        n <= usize::MAX,
    ensures
        count_grammar(line(prefix, nat_digits(n)) + tail, prefix) == Parsed::Complete(
            n,
            line(prefix, nat_digits(n)).len(),
        ),
        !is_sentinel(line(prefix, nat_digits(n)) + tail, prefix),
        after(line(prefix, nat_digits(n)) + tail, line(prefix, nat_digits(n)).len()) == tail,
        (line(prefix, nat_digits(n)) + tail)[0] == prefix,
{
    lemma_numerals_plain(n, 0);
    lemma_head_of_line(prefix, nat_digits(n), tail);
    lemma_digits_value_of_nat_digits(n);
}

/// The entries of a map whose keys ascend are collected into that map.
pub proof fn lemma_collected_sorted(entries: Seq<(Seq<char>, FrameView)>)
    requires
        sorted_keys(entries),
    ensures
        collected(entries) == entries,
    decreases entries.len(),
{
    if entries.len() > 0 {
        let front = entries.drop_last();
        let last = entries.last();
        lemma_collected_sorted(front);
        lemma_upsert_last(front, last.0, last.1);
    }
}

/// Pairs that are collected give a map whose keys ascend, so that no key
/// occurs twice.
pub proof fn lemma_collected_ascends(pairs: Seq<(Seq<char>, FrameView)>)
    ensures
        sorted_keys(collected(pairs)),
    decreases pairs.len(),
{
    if pairs.len() > 0 {
        lemma_collected_ascends(pairs.drop_last());
        lemma_upsert_sorted(
            collected(pairs.drop_last()),
            pairs.last().0,
            pairs.last().1,
        );
    }
}

/// A frame that is one line is read back from its bytes, whatever follows
/// them.
proof fn lemma_decode_encode_line(f: FrameView, rest: Seq<u8>)
    requires
        frame_wf(f),
        f is SimpleString || f is Error || f is Integer || f is Null || f is NullArray
            || f is NullBulkString || f is Boolean || f is Double,
    ensures
        frame_grammar(wire(f) + rest) == Parsed::Complete(f, wire(f).len()),
{
    broadcast use vstd::utf8::encode_utf8_decode_utf8, vstd::utf8::encode_utf8_valid_utf8;

    match f {
        FrameView::SimpleString(s) => {
            lemma_head_of_line(SIMPLE_STRING, encode_utf8(s), rest);
        },
        FrameView::Error(s) => {
            lemma_head_of_line(SIMPLE_ERROR, encode_utf8(s), rest);
        },
        FrameView::Integer(i) => {
            lemma_numerals_plain(0, i as int);
            lemma_head_of_line(INTEGER, signed_text(i as int), rest);
            lemma_signed_value_of_text(i as int);
        },
        FrameView::NullArray => {
            lemma_head_of_line(ARRAY, minus_one(), rest);
        },
        FrameView::NullBulkString => {
            lemma_head_of_line(BULK_STRING, minus_one(), rest);
        },
        FrameView::Boolean(b) => {
            lemma_head_of_line(BOOLEAN, seq![boolean_letter(b)], rest);
        },
        FrameView::Double(d) => {
            lemma_double_text_plain(d);
            lemma_head_of_line(DOUBLE, d.text(), rest);
            lemma_double_value_of_text(d);
        },
        _ => {},
    }
}

/// A bulk string is read back from its bytes, whatever follows them.
proof fn lemma_decode_encode_bulk(b: Seq<u8>, rest: Seq<u8>)
    requires
        b.len() <= usize::MAX,
    ensures
        frame_grammar(wire(FrameView::BulkString(b)) + rest) == Parsed::Complete(
            FrameView::BulkString(b),
            wire(FrameView::BulkString(b)).len(),
        ),
{
    let f = FrameView::BulkString(b);
    let n = b.len();
    let tail = b + crlf() + rest;
    let buf = wire(f) + rest;
    assert(buf =~= line(BULK_STRING, nat_digits(n)) + tail);
    lemma_count_of_line(BULK_STRING, n, tail);
    let h = line(BULK_STRING, nat_digits(n)).len();
    assert(buf.subrange(h as int, (h + n) as int) =~= b);
}

/// Frames are read back from their bytes one by one, whatever follows them.
proof fn lemma_decode_encode_items(items: Seq<FrameView>, rest: Seq<u8>)
    requires
        frames_wf(items),
    ensures
        items_grammar(wire_all(items) + rest, items.len()) == Parsed::Complete(
            items,
            wire_all(items).len(),
        ),
    decreases items, 0nat,
{
    if items.len() > 0 {
        let first = items[0];
        let others = items.skip(1);
        lemma_wire_all_first(items);
        let tail = wire_all(others) + rest;
        let buf = wire_all(items) + rest;
        assert(buf =~= wire(first) + tail);
        lemma_decode_encode(first, tail);
        assert(after(buf, wire(first).len()) =~= tail);
        lemma_decode_encode_items(others, rest);
        assert(seq![first] + others =~= items);
    } else {
        assert(items =~= Seq::<FrameView>::empty());
    }
}

/// The entries of a map are read back from their bytes one by one, whatever
/// follows them.
proof fn lemma_decode_encode_pairs(entries: Seq<(Seq<char>, FrameView)>, rest: Seq<u8>)
    requires
        entries_wf(entries),
    ensures
        pairs_grammar(wire_entries(entries) + rest, entries.len()) == Parsed::Complete(
            entries,
            wire_entries(entries).len(),
        ),
    decreases entries, 0nat,
{
    broadcast use vstd::utf8::encode_utf8_decode_utf8, vstd::utf8::encode_utf8_valid_utf8;

    if entries.len() > 0 {
        let first = entries[0];
        let others = entries.skip(1);
        lemma_wire_entries_first(entries);
        let key_line = line(SIMPLE_STRING, encode_utf8(first.0));
        let tail = wire_entries(others) + rest;
        let buf = wire_entries(entries) + rest;
        assert(buf =~= key_line + (wire(first.1) + tail));
        lemma_head_of_line(SIMPLE_STRING, encode_utf8(first.0), wire(first.1) + tail);
        lemma_decode_encode(first.1, tail);
        assert(after(wire(first.1) + tail, wire(first.1).len()) =~= tail);
        lemma_decode_encode_pairs(others, rest);
        assert(seq![(first.0, first.1)] + others =~= entries);
    } else {
        assert(entries =~= Seq::<(Seq<char>, FrameView)>::empty());
    }
}

/// Decoding the bytes of a frame gives the frame back and takes exactly
/// its bytes, whatever follows them in the buffer.
pub proof fn lemma_decode_encode(f: FrameView, rest: Seq<u8>)
    requires
        frame_wf(f),
    ensures
        frame_grammar(wire(f) + rest) == Parsed::Complete(f, wire(f).len()),
    decreases f, 1nat,
{
    match f {
        FrameView::BulkString(b) => {
            lemma_decode_encode_bulk(b, rest);
        },
        FrameView::Array(items) => {
            let tail = wire_all(items) + rest;
            let buf = wire(f) + rest;
            assert(buf =~= line(ARRAY, nat_digits(items.len())) + tail);
            lemma_count_of_line(ARRAY, items.len(), tail);
            lemma_decode_encode_items(items, rest);
        },
        FrameView::RespSet(items) => {
            let tail = wire_all(items) + rest;
            let buf = wire(f) + rest;
            assert(buf =~= line(SET, nat_digits(items.len())) + tail);
            lemma_count_of_line(SET, items.len(), tail);
            lemma_decode_encode_items(items, rest);
        },
        FrameView::RespMap(entries) => {
            let tail = wire_entries(entries) + rest;
            let buf = wire(f) + rest;
            assert(buf =~= line(MAP, nat_digits(entries.len())) + tail);
            lemma_count_of_line(MAP, entries.len(), tail);
            lemma_decode_encode_pairs(entries, rest);
            lemma_collected_sorted(entries);
        },
        _ => {
            lemma_decode_encode_line(f, rest);
        },
    }
}

/// Round trip: the bytes of a frame, with nothing behind them, decode to
/// that frame, and all of them are taken.
pub proof fn lemma_round_trip(f: FrameView)
    requires
        frame_wf(f),
    ensures
        frame_grammar(wire(f)) == Parsed::Complete(f, wire(f).len()),
{
    lemma_decode_encode(f, Seq::<u8>::empty());
}

/// A line that is cut short, with a body that holds no line break, is not
/// complete.
pub proof fn lemma_head_truncated(prefix: u8, body: Seq<u8>, k: int)
    requires
        plain_line(body),
        0 <= k < body.len() + 3,
    ensures
        head(line(prefix, body).take(k), prefix) == Parsed::<Seq<u8>>::Failed(
            ErrorKind::NotComplete,
        ),
        k > 0 ==> line(prefix, body).take(k)[0] == prefix,
{
    let whole = line(prefix, body);
    let buf = whole.take(k);
    if k > 0 {
        lemma_find_crlf(buf, 1);
    }
}

/// A frame of one line that is cut short is not complete.
proof fn lemma_truncated_line(f: FrameView, k: int)
    requires
        frame_wf(f),
        f is SimpleString || f is Error || f is Integer || f is Null || f is NullArray
            || f is NullBulkString || f is Boolean || f is Double,
        0 < k < wire(f).len(),
    ensures
        frame_grammar(wire(f).take(k)) == Parsed::<FrameView>::Failed(ErrorKind::NotComplete),
{
    match f {
        FrameView::SimpleString(s) => {
            lemma_head_truncated(SIMPLE_STRING, encode_utf8(s), k);
        },
        FrameView::Error(s) => {
            lemma_head_truncated(SIMPLE_ERROR, encode_utf8(s), k);
        },
        FrameView::Integer(i) => {
            lemma_numerals_plain(0, i as int);
            lemma_head_truncated(INTEGER, signed_text(i as int), k);
        },
        FrameView::NullArray => {
            lemma_head_truncated(ARRAY, minus_one(), k);
        },
        FrameView::NullBulkString => {
            lemma_head_truncated(BULK_STRING, minus_one(), k);
        },
        FrameView::Boolean(b) => {
            lemma_head_truncated(BOOLEAN, seq![boolean_letter(b)], k);
        },
        FrameView::Double(d) => {
            lemma_double_text_plain(d);
            lemma_head_truncated(DOUBLE, d.text(), k);
        },
        _ => {},
    }
}

/// A frame that opens with a line stating a number, cut short within that
/// line, is not complete.
proof fn lemma_truncated_in_count(prefix: u8, n: nat, tail: Seq<u8>, k: int)
    requires
        prefix == BULK_STRING || prefix == ARRAY || prefix == MAP || prefix == SET,
        0 < k < line(prefix, nat_digits(n)).len(),
    ensures
        frame_grammar((line(prefix, nat_digits(n)) + tail).take(k)) == Parsed::<
            FrameView,
        >::Failed(ErrorKind::NotComplete),
{
    lemma_numerals_plain(n, 0);
    let opening = line(prefix, nat_digits(n));
    assert((opening + tail).take(k) =~= opening.take(k));
    lemma_head_truncated(prefix, nat_digits(n), k);
}

/// A bulk string that is cut short is not complete.
proof fn lemma_truncated_bulk(b: Seq<u8>, k: int)
    requires
        b.len() <= usize::MAX,
        0 < k < wire(FrameView::BulkString(b)).len(),
    ensures
        frame_grammar(wire(FrameView::BulkString(b)).take(k)) == Parsed::<FrameView>::Failed(
            ErrorKind::NotComplete,
        ),
{
    let n = b.len();
    let opening = line(BULK_STRING, nat_digits(n));
    let h = opening.len() as int;
    let whole = wire(FrameView::BulkString(b));
    let tail = b + crlf();
    assert(whole =~= opening + tail);
    if k < h {
        lemma_truncated_in_count(BULK_STRING, n, tail, k);
    } else {
        let cut = tail.take(k - h);
        assert(whole.take(k) =~= opening + cut);
        lemma_count_of_line(BULK_STRING, n, cut);
    }
}

/// Frames one behind the other that are cut short are not complete.
proof fn lemma_truncated_items(items: Seq<FrameView>, k: int)
    requires
        frames_wf(items),
        0 <= k < wire_all(items).len(),
    ensures
        items_grammar(wire_all(items).take(k), items.len()) == Parsed::<Seq<FrameView>>::Failed(
            ErrorKind::NotComplete,
        ),
    decreases items, 0nat,
{
    if items.len() > 0 {
        let first = items[0];
        let others = items.skip(1);
        lemma_wire_all_first(items);
        let whole = wire_all(items);
        let c = wire(first).len() as int;
        if k < c {
            assert(whole.take(k) =~= wire(first).take(k));
            lemma_truncated(first, k);
        } else {
            let cut = wire_all(others).take(k - c);
            assert(whole.take(k) =~= wire(first) + cut);
            lemma_decode_encode(first, cut);
            assert(after(wire(first) + cut, c as nat) =~= cut);
            lemma_truncated_items(others, k - c);
        }
    }
}

/// The entries of a map one behind the other that are cut short are not
/// complete.
proof fn lemma_truncated_pairs(entries: Seq<(Seq<char>, FrameView)>, k: int)
    requires
        entries_wf(entries),
        0 <= k < wire_entries(entries).len(),
    ensures
        pairs_grammar(wire_entries(entries).take(k), entries.len()) == Parsed::<
            Seq<(Seq<char>, FrameView)>,
        >::Failed(ErrorKind::NotComplete),
    decreases entries, 0nat,
{
    if entries.len() > 0 {
        let first = entries[0];
        let others = entries.skip(1);
        lemma_wire_entries_first(entries);
        let whole = wire_entries(entries);
        let key_body = encode_utf8(first.0);
        let key_line = line(SIMPLE_STRING, key_body);
        let c = key_line.len() as int;
        let d = wire(first.1).len() as int;
        if k < c {
            assert(whole.take(k) =~= key_line.take(k));
            lemma_head_truncated(SIMPLE_STRING, key_body, k);
        } else if k < c + d {
            let cut = wire(first.1).take(k - c);
            assert(whole.take(k) =~= key_line + cut);
            lemma_head_of_line(SIMPLE_STRING, key_body, cut);
            lemma_truncated(first.1, k - c);
        } else {
            let cut = wire_entries(others).take(k - c - d);
            assert(whole.take(k) =~= key_line + (wire(first.1) + cut));
            lemma_head_of_line(SIMPLE_STRING, key_body, wire(first.1) + cut);
            lemma_decode_encode(first.1, cut);
            assert(after(wire(first.1) + cut, d as nat) =~= cut);
            assert(entries_wf(others)) by {
                assert forall|i: int| 0 <= i < others.len() implies plain_text(
                    (#[trigger] others[i]).0,
                ) && frame_wf(others[i].1) by {}
            }
            lemma_truncated_pairs(others, k - c - d);
        }
    }
}

/// Partial input: a frame of which only a proper beginning has arrived is
/// not complete, so the decoder asks for more bytes and takes none.
pub proof fn lemma_truncated(f: FrameView, k: int)
    requires
        frame_wf(f),
        0 <= k < wire(f).len(),
    ensures
        frame_grammar(wire(f).take(k)) == Parsed::<FrameView>::Failed(ErrorKind::NotComplete),
    decreases f, 1nat,
{
    if k > 0 {
        match f {
            FrameView::BulkString(b) => {
                lemma_truncated_bulk(b, k);
            },
            FrameView::Array(items) => {
                let opening = line(ARRAY, nat_digits(items.len()));
                let h = opening.len() as int;
                if k < h {
                    lemma_truncated_in_count(ARRAY, items.len(), wire_all(items), k);
                } else {
                    let cut = wire_all(items).take(k - h);
                    assert(wire(f).take(k) =~= opening + cut);
                    lemma_count_of_line(ARRAY, items.len(), cut);
                    lemma_truncated_items(items, k - h);
                }
            },
            FrameView::RespSet(items) => {
                let opening = line(SET, nat_digits(items.len()));
                let h = opening.len() as int;
                if k < h {
                    lemma_truncated_in_count(SET, items.len(), wire_all(items), k);
                } else {
                    let cut = wire_all(items).take(k - h);
                    assert(wire(f).take(k) =~= opening + cut);
                    lemma_count_of_line(SET, items.len(), cut);
                    lemma_truncated_items(items, k - h);
                }
            },
            FrameView::RespMap(entries) => {
                let opening = line(MAP, nat_digits(entries.len()));
                let h = opening.len() as int;
                if k < h {
                    lemma_truncated_in_count(MAP, entries.len(), wire_entries(entries), k);
                } else {
                    let cut = wire_entries(entries).take(k - h);
                    assert(wire(f).take(k) =~= opening + cut);
                    lemma_count_of_line(MAP, entries.len(), cut);
                    lemma_truncated_pairs(entries, k - h);
                }
            },
            _ => {
                lemma_truncated_line(f, k);
            },
        }
    }
}

/// Frames read one behind the other take no more bytes than the buffer
/// holds, and as many are read as were asked for.
pub proof fn lemma_items_bounds(buf: Seq<u8>, n: nat)
    ensures
        items_grammar(buf, n) matches Parsed::Complete(items, c) ==> c <= buf.len()
            && items.len() == n,
    decreases buf.len(), n + 2,
{
    if n > 0 {
        lemma_frame_bounds(buf);
        match frame_grammar(buf) {
            Parsed::Complete(first, c) => {
                lemma_items_bounds(after(buf, c), (n - 1) as nat);
            },
            Parsed::Failed(_) => {},
        }
    }
}

/// Pairs read one behind the other take no more bytes than the buffer
/// holds, and as many are read as were asked for.
pub proof fn lemma_pairs_bounds(buf: Seq<u8>, n: nat)
    ensures
        pairs_grammar(buf, n) matches Parsed::Complete(pairs, c) ==> c <= buf.len()
            && pairs.len() == n,
    decreases buf.len(), n + 2,
{
    if n > 0 {
        match head(buf, SIMPLE_STRING) {
            Parsed::Complete(body, c) => {
                lemma_frame_bounds(after(buf, c));
                match frame_grammar(after(buf, c)) {
                    Parsed::Complete(value, d) => {
                        lemma_pairs_bounds(after(after(buf, c), d), (n - 1) as nat);
                    },
                    Parsed::Failed(_) => {},
                }
            },
            Parsed::Failed(_) => {},
        }
    }
}

/// A frame takes at least one byte of the buffer and no more than the
/// buffer holds.
pub proof fn lemma_frame_bounds(buf: Seq<u8>)
    ensures
        frame_grammar(buf) matches Parsed::Complete(_, n) ==> 0 < n <= buf.len(),
    decreases buf.len(), 1nat,
{
    if buf.len() > 0 {
        let prefix = buf[0];
        lemma_head_bounds(buf, prefix);
        if prefix == ARRAY || prefix == SET {
            match count_grammar(buf, prefix) {
                Parsed::Complete(n, h) => {
                    lemma_items_bounds(after(buf, h), n);
                },
                Parsed::Failed(_) => {},
            }
        } else if prefix == MAP {
            match count_grammar(buf, prefix) {
                Parsed::Complete(n, h) => {
                    lemma_pairs_bounds(after(buf, h), n);
                },
                Parsed::Failed(_) => {},
            }
        }
    }
}

/// A line end that was found stays the first when more bytes arrive.
pub proof fn lemma_find_crlf_stands(buf: Seq<u8>, more: Seq<u8>, from: int)
    requires
        0 <= from,
        find_crlf(buf, from) is Some,
    ensures
        find_crlf(buf + more, from) == find_crlf(buf, from),
    decreases buf.len() - from,
{
    if from + 1 < buf.len() {
        if !(buf[from] == 13 && buf[from + 1] == 10) {
            lemma_find_crlf_stands(buf, more, from + 1);
        }
    }
}

/// A first line that was read, or refused for its first byte, is read or
/// refused alike when more bytes arrive.
pub proof fn lemma_head_stands(buf: Seq<u8>, more: Seq<u8>, prefix: u8)
    requires
        head(buf, prefix) != Parsed::<Seq<u8>>::Failed(ErrorKind::NotComplete),
    ensures
        head(buf + more, prefix) == head(buf, prefix),
{
    if buf[0] == prefix {
        lemma_find_crlf_stands(buf, more, 1);
        lemma_find_crlf(buf, 1);
        let e = find_crlf(buf, 1)->Some_0;
        assert((buf + more).subrange(1, e) =~= buf.subrange(1, e));
    }
}

/// Frames that were read one behind the other, or refused, are read or
/// refused alike when more bytes arrive.
pub proof fn lemma_items_stand(buf: Seq<u8>, more: Seq<u8>, n: nat)
    requires
        items_grammar(buf, n) != Parsed::<Seq<FrameView>>::Failed(ErrorKind::NotComplete),
    ensures
        items_grammar(buf + more, n) == items_grammar(buf, n),
    decreases buf.len(), n + 2,
{
    if n > 0 {
        lemma_verdict_stands(buf, more);
        lemma_frame_bounds(buf);
        match frame_grammar(buf) {
            Parsed::Complete(first, c) => {
                assert(after(buf + more, c) =~= after(buf, c) + more);
                lemma_items_stand(after(buf, c), more, (n - 1) as nat);
            },
            Parsed::Failed(_) => {},
        }
    }
}

/// Pairs that were read one behind the other, or refused, are read or
/// refused alike when more bytes arrive.
pub proof fn lemma_pairs_stand(buf: Seq<u8>, more: Seq<u8>, n: nat)
    requires
        pairs_grammar(buf, n) != Parsed::<Seq<(Seq<char>, FrameView)>>::Failed(
            ErrorKind::NotComplete,
        ),
    ensures
        pairs_grammar(buf + more, n) == pairs_grammar(buf, n),
    decreases buf.len(), n + 2,
{
    if n > 0 {
        lemma_head_stands(buf, more, SIMPLE_STRING);
        match head(buf, SIMPLE_STRING) {
            Parsed::Complete(body, c) => {
                let behind = after(buf, c);
                assert(after(buf + more, c) =~= behind + more);
                lemma_verdict_stands(behind, more);
                lemma_frame_bounds(behind);
                match frame_grammar(behind) {
                    Parsed::Complete(value, d) => {
                        assert(after(behind + more, d) =~= after(behind, d) + more);
                        lemma_pairs_stand(after(behind, d), more, (n - 1) as nat);
                    },
                    Parsed::Failed(_) => {},
                }
            },
            Parsed::Failed(_) => {},
        }
    }
}

/// The verdict stands: what the front of a buffer was read as, a frame or
/// an error other than that the frame is not complete, it is read as when
/// more bytes have arrived behind it.
pub proof fn lemma_verdict_stands(buf: Seq<u8>, more: Seq<u8>)
    requires
        frame_grammar(buf) != Parsed::<FrameView>::Failed(ErrorKind::NotComplete),
    ensures
        frame_grammar(buf + more) == frame_grammar(buf),
    decreases buf.len(), 1nat,
{
    let prefix = buf[0];
    if prefix == SIMPLE_STRING || prefix == SIMPLE_ERROR || prefix == INTEGER || prefix == NULL
        || prefix == BOOLEAN || prefix == DOUBLE {
        lemma_head_stands(buf, more, prefix);
    } else if prefix == BULK_STRING {
        lemma_head_stands(buf, more, prefix);
        match head(buf, prefix) {
            Parsed::Complete(body, h) => {
                match bounded_numeral(body, usize::MAX as nat) {
                    Some(n) => {
                        if body != minus_one() {
                            assert((buf + more).subrange(h as int, (h + n) as int) =~= buf.subrange(
                                h as int,
                                (h + n) as int,
                            ));
                        }
                    },
                    None => {},
                }
            },
            Parsed::Failed(_) => {},
        }
    } else if prefix == ARRAY || prefix == SET {
        lemma_head_stands(buf, more, prefix);
        lemma_head_bounds(buf, prefix);
        match count_grammar(buf, prefix) {
            Parsed::Complete(n, h) => {
                assert(after(buf + more, h) =~= after(buf, h) + more);
                if !is_sentinel(buf, prefix) || prefix == SET {
                    lemma_items_stand(after(buf, h), more, n);
                }
            },
            Parsed::Failed(_) => {},
        }
    } else if prefix == MAP {
        lemma_head_stands(buf, more, prefix);
        lemma_head_bounds(buf, prefix);
        match count_grammar(buf, prefix) {
            Parsed::Complete(n, h) => {
                assert(after(buf + more, h) =~= after(buf, h) + more);
                lemma_pairs_stand(after(buf, h), more, n);
            },
            Parsed::Failed(_) => {},
        }
    }
}

} // verus!
