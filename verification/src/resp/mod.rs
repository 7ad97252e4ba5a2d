//! Frames of the wire protocol: the values, their mathematical model and the
//! two traits that turn them into bytes and back.

pub mod append;
pub mod buffer;
pub mod convert;
pub mod decimal;
pub mod decode;
pub mod double;
pub mod encode;
pub mod grammar;
pub mod laws;
pub mod map;
pub mod text;
pub mod wf;
pub mod wire;

pub use crate::resp::double::RespDouble;
pub use crate::resp::map::RespMap;

use bytes::BytesMut;
use crate::resp::append::push_range;
use crate::resp::buffer::contents;
use crate::resp::double::DoubleView;
use crate::resp::grammar::Parsed;
use crate::resp::map::sorted_keys;
use crate::resp::text::plain_text;
use crate::resp::wire::wire;
use vstd::prelude::*;

verus! {

/// Why a buffer did not give a frame.
#[derive(PartialEq, Debug)]
pub enum RespError {
    /// The payload of a frame is not what its kind allows.
    InvalidFrame(String),
    /// The first byte is not the prefix of the expected kind of frame.
    InvalidFrameType(String),
    /// The bytes of a bulk string do not end where its length says.
    InvalidFrameLength(usize),
    /// The buffer ends before the frame does.
    NotComplete,
    /// A length, a count or an integer is no numeral, or too large.
    ParseIntError,
    /// A double is not written as a decimal number.
    ParseFloatError,
}

/// The kind of a `RespError`, without its message.
pub enum ErrorKind {
    InvalidFrame,
    InvalidFrameType,
    InvalidFrameLength(nat),
    NotComplete,
    ParseInt,
    ParseFloat,
}

impl View for RespError {
    type V = ErrorKind;

    open spec fn view(&self) -> ErrorKind {
        match self {
            RespError::InvalidFrame(_) => ErrorKind::InvalidFrame,
            RespError::InvalidFrameType(_) => ErrorKind::InvalidFrameType,
            RespError::InvalidFrameLength(n) => ErrorKind::InvalidFrameLength(*n as nat),
            RespError::NotComplete => ErrorKind::NotComplete,
            RespError::ParseIntError => ErrorKind::ParseInt,
            RespError::ParseFloatError => ErrorKind::ParseFloat,
        }
    }
}

/// A simple string: one line of text.
#[derive(PartialEq, Debug, Clone)]
pub struct SimpleString(pub String);

/// A simple error: one line of text that reports a failure.
#[derive(PartialEq, Debug, Clone)]
pub struct SimpleError(pub String);

/// A bulk string: bytes of a stated length.
#[derive(PartialEq, Debug, Clone)]
pub struct BulkString(pub Vec<u8>);

/// An array: frames in order.
#[derive(PartialEq, Debug)]
pub struct RespArray(pub Vec<RespFrame>);

/// A set: frames in the order in which they were put in.
#[derive(PartialEq, Debug)]
pub struct RespSet(pub Vec<RespFrame>);

/// The null value.
#[derive(PartialEq, Debug, Clone)]
pub struct RespNull;

/// The array that is absent, which is not the empty array.
#[derive(PartialEq, Debug, Clone)]
pub struct RespNullArray;

/// The bulk string that is absent, which is not the empty bulk string.
#[derive(PartialEq, Debug, Clone)]
pub struct RespNullBulkString;

/// One value of the wire protocol.
#[derive(PartialEq, Debug)]
pub enum RespFrame {
    SimpleSting(SimpleString),
    Error(SimpleError),
    Integer(i64),
    BulkString(BulkString),
    Array(RespArray),
    Null(RespNull),
    NullArray(RespNullArray),
    NullBulkString(RespNullBulkString),
    Boolean(bool),
    Double(RespDouble),
    RespMap(RespMap),
    RespSet(RespSet),
}

/// The mathematical value of a frame. A map is the sequence of its entries in
/// ascending order of their keys.
pub enum FrameView {
    SimpleString(Seq<char>),
    Error(Seq<char>),
    Integer(i64),
    BulkString(Seq<u8>),
    Array(Seq<FrameView>),
    Null,
    NullArray,
    NullBulkString,
    Boolean(bool),
    Double(DoubleView),
    RespMap(Seq<(Seq<char>, FrameView)>),
    RespSet(Seq<FrameView>),
}

/// The values of a sequence of frames, one by one.
pub open spec fn frames_view(v: Seq<RespFrame>) -> Seq<FrameView>
    decreases v,
{
    if v.len() == 0 {
        Seq::empty()
    } else {
        frames_view(v.drop_last()).push(frame_view(v.last()))
    }
}

/// The values of a sequence of entries, one by one.
pub open spec fn entries_view(v: Seq<(String, RespFrame)>) -> Seq<(Seq<char>, FrameView)>
    decreases v,
{
    if v.len() == 0 {
        Seq::empty()
    } else {
        entries_view(v.drop_last()).push((v.last().0@, frame_view(v.last().1)))
    }
}

/// The value of a frame.
pub open spec fn frame_view(f: RespFrame) -> FrameView
    decreases f,
{
    match f {
        RespFrame::SimpleSting(s) => FrameView::SimpleString(s.0@),
        RespFrame::Error(e) => FrameView::Error(e.0@),
        RespFrame::Integer(i) => FrameView::Integer(i),
        RespFrame::BulkString(b) => FrameView::BulkString(b.0@),
        RespFrame::Array(a) => FrameView::Array(frames_view(a.0@)),
        RespFrame::Null(_) => FrameView::Null,
        RespFrame::NullArray(_) => FrameView::NullArray,
        RespFrame::NullBulkString(_) => FrameView::NullBulkString,
        RespFrame::Boolean(b) => FrameView::Boolean(b),
        RespFrame::Double(d) => FrameView::Double(d@),
        RespFrame::RespMap(m) => FrameView::RespMap(m.view()),
        RespFrame::RespSet(s) => FrameView::RespSet(frames_view(s.0@)),
    }
}

impl View for RespFrame {
    type V = FrameView;

    open spec fn view(&self) -> FrameView {
        frame_view(*self)
    }
}

impl View for SimpleString {
    type V = Seq<char>;

    open spec fn view(&self) -> Seq<char> {
        self.0@
    }
}

impl View for SimpleError {
    type V = Seq<char>;

    open spec fn view(&self) -> Seq<char> {
        self.0@
    }
}

impl View for BulkString {
    type V = Seq<u8>;

    open spec fn view(&self) -> Seq<u8> {
        self.0@
    }
}

impl View for RespArray {
    type V = Seq<FrameView>;

    open spec fn view(&self) -> Seq<FrameView> {
        frames_view(self.0@)
    }
}

impl View for RespSet {
    type V = Seq<FrameView>;

    open spec fn view(&self) -> Seq<FrameView> {
        frames_view(self.0@)
    }
}

impl std::ops::Deref for SimpleString {
    type Target = String;

    fn deref(&self) -> (r: &String)
        ensures
            r@ == self@,
    {
        &self.0
    }
}

impl std::ops::Deref for SimpleError {
    type Target = String;

    fn deref(&self) -> (r: &String)
        ensures
            r@ == self@,
    {
        &self.0
    }
}

impl std::ops::Deref for BulkString {
    type Target = Vec<u8>;

    fn deref(&self) -> (r: &Vec<u8>)
        ensures
            r@ == self@,
    {
        &self.0
    }
}

impl std::ops::Deref for RespArray {
    type Target = Vec<RespFrame>;

    fn deref(&self) -> (r: &Vec<RespFrame>)
        ensures
            *r == self.0,
    {
        &self.0
    }
}

impl std::ops::Deref for RespSet {
    type Target = Vec<RespFrame>;

    fn deref(&self) -> (r: &Vec<RespFrame>)
        ensures
            *r == self.0,
    {
        &self.0
    }
}

/// A value that is a frame of one kind.
pub trait FrameValue {
    /// The frame that the value is.
    spec fn frame(&self) -> FrameView;
}

/// A value that can be written to the wire.
pub trait RespEncode: FrameValue + Sized {
    /// The bytes of the value on the wire.
    fn encode(self) -> (out: Vec<u8>)
        ensures
            out@ == wire(self.frame()),
    ;
}

/// Whether a decoder did what the grammar says: `parsed` is what the
/// grammar makes of the bytes `before`, `res` is what the decoder returned,
/// and `now` is what the buffer holds afterwards. A frame that is complete
/// is returned and its bytes are taken out; otherwise the error is
/// returned and the buffer is as it was.
pub open spec fn decoded<T: FrameValue>(
    parsed: Parsed<FrameView>,
    res: Result<T, RespError>,
    before: Seq<u8>,
    now: Seq<u8>,
) -> bool {
    match parsed {
        Parsed::Complete(v, n) => res matches Ok(t) && t.frame() == v && n <= before.len() && now
            == before.skip(n as int),
        Parsed::Failed(k) => res matches Err(e) && e@ == k && now == before,
    }
}

/// Whether a length is what the grammar says: that of the frame at the
/// front of the buffer, or the error that keeps it from being read.
pub open spec fn measured(parsed: Parsed<FrameView>, res: Result<usize, RespError>) -> bool {
    match parsed {
        Parsed::Complete(_, n) => res matches Ok(m) && m == n,
        Parsed::Failed(k) => res matches Err(e) && e@ == k,
    }
}

/// A value that can be read from the front of a byte buffer.
pub trait RespDecode: FrameValue + Sized {
    /// What the grammar makes of the front of `buf`, read as a value of
    /// this kind.
    spec fn grammar(buf: Seq<u8>) -> Parsed<FrameView>;

    /// Reads a value from the front of `buf` and takes its bytes out of the
    /// buffer. Where the buffer ends before the value does, or its bytes
    /// break the grammar, the buffer is left as it is.
    fn decode(buf: &mut BytesMut) -> (res: Result<Self, RespError>)
        ensures
            decoded(
                Self::grammar(contents(*old(buf))),
                res,
                contents(*old(buf)),
                contents(*final(buf)),
            ),
    ;

    /// The number of bytes that the value at the front of `buf` takes.
    fn expect_length(buf: &[u8]) -> (res: Result<usize, RespError>)
        ensures
            measured(Self::grammar(buf@), res),
    ;
}

impl FrameValue for RespFrame {
    open spec fn frame(&self) -> FrameView {
        self@
    }
}

impl FrameValue for SimpleString {
    open spec fn frame(&self) -> FrameView {
        FrameView::SimpleString(self@)
    }
}

impl FrameValue for SimpleError {
    open spec fn frame(&self) -> FrameView {
        FrameView::Error(self@)
    }
}

impl FrameValue for i64 {
    open spec fn frame(&self) -> FrameView {
        FrameView::Integer(*self)
    }
}

impl FrameValue for BulkString {
    open spec fn frame(&self) -> FrameView {
        FrameView::BulkString(self@)
    }
}

impl FrameValue for RespArray {
    open spec fn frame(&self) -> FrameView {
        FrameView::Array(self@)
    }
}

impl FrameValue for RespNull {
    open spec fn frame(&self) -> FrameView {
        FrameView::Null
    }
}

impl FrameValue for RespNullArray {
    open spec fn frame(&self) -> FrameView {
        FrameView::NullArray
    }
}

impl FrameValue for RespNullBulkString {
    open spec fn frame(&self) -> FrameView {
        FrameView::NullBulkString
    }
}

impl FrameValue for bool {
    open spec fn frame(&self) -> FrameView {
        FrameView::Boolean(*self)
    }
}

impl FrameValue for RespDouble {
    open spec fn frame(&self) -> FrameView {
        FrameView::Double(self@)
    }
}

impl FrameValue for RespMap {
    open spec fn frame(&self) -> FrameView {
        FrameView::RespMap(self@)
    }
}

impl FrameValue for RespSet {
    open spec fn frame(&self) -> FrameView {
        FrameView::RespSet(self@)
    }
}

/// The value of a sequence of frames has the value of each frame at its
/// place.
pub proof fn lemma_frames_view(v: Seq<RespFrame>)
    ensures
        frames_view(v).len() == v.len(),
        forall|i: int| 0 <= i < v.len() ==> (#[trigger] frames_view(v)[i]) == v[i]@,
    decreases v.len(),
{
    if v.len() > 0 {
        lemma_frames_view(v.drop_last());
    }
}

/// The value of a sequence of entries has the key and the value of each
/// entry at its place.
pub proof fn lemma_entries_view(v: Seq<(String, RespFrame)>)
    ensures
        entries_view(v).len() == v.len(),
        forall|i: int|
            0 <= i < v.len() ==> (#[trigger] entries_view(v)[i]) == (v[i].0@, v[i].1@),
    decreases v.len(),
{
    if v.len() > 0 {
        lemma_entries_view(v.drop_last());
    }
}

/// Copies a vector of frames, frame by frame.
pub fn clone_frames(v: &Vec<RespFrame>) -> (r: Vec<RespFrame>)
    ensures
        frames_view(r@) == frames_view(v@),
    decreases v,
{
    let mut out: Vec<RespFrame> = Vec::new();
    let mut i: usize = 0;
    while i < v.len()
        invariant
            i <= v.len(),
            out@.len() == i,
            forall|j: int| 0 <= j < i ==> (#[trigger] out@[j])@ == v@[j]@,
        decreases v.len() - i,
    {
        let item = &v[i];
        out.push(item.clone());
        i += 1;
    }
    proof {
        lemma_frames_view(out@);
        lemma_frames_view(v@);
    }
    out
}

impl Clone for RespFrame {
    fn clone(&self) -> (r: Self)
        ensures
            r@ == self@,
        decreases self,
    {
        match self {
            RespFrame::SimpleSting(s) => RespFrame::SimpleSting(SimpleString(s.0.clone())),
            RespFrame::Error(e) => RespFrame::Error(SimpleError(e.0.clone())),
            RespFrame::Integer(i) => RespFrame::Integer(*i),
            RespFrame::BulkString(b) => {
                let mut bytes: Vec<u8> = Vec::new();
                push_range(&mut bytes, b.0.as_slice(), 0, b.0.len());
                proof {
                    assert(bytes@ =~= b.0@);
                }
                RespFrame::BulkString(BulkString(bytes))
            },
            RespFrame::Array(a) => RespFrame::Array(RespArray(clone_frames(&a.0))),
            RespFrame::Null(_) => RespFrame::Null(RespNull),
            RespFrame::NullArray(_) => RespFrame::NullArray(RespNullArray),
            RespFrame::NullBulkString(_) => RespFrame::NullBulkString(RespNullBulkString),
            RespFrame::Boolean(b) => RespFrame::Boolean(*b),
            RespFrame::Double(d) => RespFrame::Double(d.clone()),
            RespFrame::RespMap(m) => RespFrame::RespMap(m.clone()),
            RespFrame::RespSet(s) => RespFrame::RespSet(RespSet(clone_frames(&s.0))),
        }
    }
}

impl Clone for RespArray {
    fn clone(&self) -> (r: Self)
        ensures
            r@ == self@,
    {
        RespArray(clone_frames(&self.0))
    }
}

impl Clone for RespSet {
    fn clone(&self) -> (r: Self)
        ensures
            r@ == self@,
    {
        RespSet(clone_frames(&self.0))
    }
}

/// Whether every frame of `items` is well formed.
pub open spec fn frames_wf(items: Seq<FrameView>) -> bool
    decreases items,
{
    forall|i: int| 0 <= i < items.len() ==> frame_wf(#[trigger] items[i])
}

/// Whether every entry of `entries` has a key that fits on a line and a
/// value that is well formed.
pub open spec fn entries_wf(entries: Seq<(Seq<char>, FrameView)>) -> bool
    decreases entries,
{
    forall|i: int|
        0 <= i < entries.len() ==> plain_text((#[trigger] entries[i]).0) && frame_wf(
            entries[i].1,
        )
}

/// Whether a frame is one that the wire can carry: its lines of text hold no
/// line break, its doubles are in canonical form, the entries of its maps
/// ascend by their keys, its lengths fit a machine word, and the frames
/// within it are such frames too.
pub open spec fn frame_wf(f: FrameView) -> bool
    decreases f,
{
    match f {
        FrameView::SimpleString(s) => plain_text(s),
        FrameView::Error(s) => plain_text(s),
        FrameView::BulkString(b) => b.len() <= usize::MAX,
        FrameView::Array(items) => items.len() <= usize::MAX && frames_wf(items),
        FrameView::Double(d) => d.wf(),
        FrameView::RespMap(entries) => entries.len() <= usize::MAX && sorted_keys(entries)
            && entries_wf(entries),
        FrameView::RespSet(items) => items.len() <= usize::MAX && frames_wf(items),
        _ => true,
    }
}

} // verus!
