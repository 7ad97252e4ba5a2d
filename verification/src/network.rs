//! What one connection does with its bytes: read a frame when one is
//! there, carry out the command it stands for, and write the answer.

use bytes::BytesMut;
use crate::backend::Backend;
use crate::cmd::{command_of, effect, error_text, response, Command, CommandError, CommandExecutor};
use crate::resp::{ErrorKind, FrameView, RespDecode, RespEncode, RespError, RespFrame};
use crate::resp::buffer::{contents, put_slice};
use crate::resp::grammar::{frame_grammar, Parsed};
use crate::resp::wire::wire;
use vstd::prelude::*;

verus! {

/// The codec of a connection: frames out of the bytes that arrive, and
/// bytes out of the frames that leave.
#[derive(Debug)]
pub struct RespFrameCodec;

impl RespFrameCodec {
    /// Writes `item` behind the bytes that `dst` holds. Where the two
    /// together are more than a buffer can hold, nothing is written and the
    /// error names the length of the frame.
    pub fn encode(&mut self, item: RespFrame, dst: &mut BytesMut) -> (r: Result<(), RespError>)
        ensures
            match r {
                Ok(_) => contents(*old(dst)).len() + wire(item@).len() <= isize::MAX && contents(
                    *final(dst),
                ) == contents(*old(dst)) + wire(item@),
                Err(e) => contents(*old(dst)).len() + wire(item@).len() > isize::MAX && contents(
                    *final(dst),
                ) == contents(*old(dst)) && e@ == ErrorKind::InvalidFrameLength(
                    wire(item@).len(),
                ),
            },
    {
        let encoded = item.encode();
        let room: usize = isize::MAX as usize;
        if dst.len() > room || encoded.len() > room - dst.len() {
            return Err(RespError::InvalidFrameLength(encoded.len()));
        }
        put_slice(dst, encoded.as_slice());
        Ok(())
    }

    /// Reads the next frame from `src` and takes its bytes out. Where the
    /// frame has not arrived in full there is none yet, and `src` is left
    /// as it is for more bytes to be added; bytes that break the grammar
    /// are an error.
    pub fn decode(&mut self, src: &mut BytesMut) -> (r: Result<Option<RespFrame>, RespError>)
        ensures
            match frame_grammar(contents(*old(src))) {
                Parsed::Complete(v, n) => r matches Ok(Some(f)) && f@ == v && n <= contents(
                    *old(src),
                ).len() && contents(*final(src)) == contents(*old(src)).skip(n as int),
                Parsed::Failed(ErrorKind::NotComplete) => r matches Ok(None) && contents(
                    *final(src),
                ) == contents(*old(src)),
                Parsed::Failed(k) => r matches Err(e) && e@ == k && contents(*final(src))
                    == contents(*old(src)),
            },
    {
        match RespFrame::decode(src) {
            Ok(frame) => Ok(Some(frame)),
            Err(RespError::NotComplete) => Ok(None),
            Err(e) => Err(e),
        }
    }
}

/// Carries out the command that `frame` stands for and gives its answer.
/// A frame that stands for no command is an error, and the store is left
/// as it is.
pub fn request_handler(frame: RespFrame, backend: &mut Backend) -> (r: Result<
    RespFrame,
    CommandError,
>)
    ensures
        match command_of(frame@) {
            Ok(cmd) => r matches Ok(answer) && answer@ == response(cmd, old(backend)@)
                && final(backend)@ == effect(cmd, old(backend)@),
            Err(k) => r matches Err(e) && e@ == k && final(backend)@ == old(backend)@,
        },
{
    match Command::try_from(frame) {
        Ok(cmd) => Ok(cmd.execute(backend)),
        Err(e) => Err(e),
    }
}

/// Answers the request that `frame` stands for: with the answer of its
/// command, or, where it stands for none, with a simple error that says
/// so. In that case the store is left as it is, and the connection can go
/// on.
pub fn respond(frame: RespFrame, backend: &mut Backend) -> (answer: RespFrame)
    ensures
        match command_of(frame@) {
            Ok(cmd) => answer@ == response(cmd, old(backend)@) && final(backend)@ == effect(
                cmd,
                old(backend)@,
            ),
            Err(k) => answer@ == FrameView::Error(error_text(k)) && final(backend)@
                == old(backend)@,
        },
{
    match request_handler(frame, backend) {
        Ok(answer) => answer,
        Err(e) => e.to_frame(),
    }
}

} // verus!
