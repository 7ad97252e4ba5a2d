//! The commands on keys: `get` and `set`.

use crate::backend::Backend;
use crate::cmd::{
    extract_args, lemma_arguments, parsed_as, resp_ok, take_text, text_argument, validate_command,
    validated, CommandError, CommandErrorKind, CommandExecutor, CommandView, Get, SetCmd,
};
use crate::resp::{FrameView, RespArray, RespFrame, RespNullBulkString};
use vstd::prelude::*;
use vstd::std_specs::convert::TryFromSpecImpl;

verus! {

/// The `get` that the frames of a request stand for: the name and a key.
pub open spec fn get_command(items: Seq<FrameView>) -> Result<CommandView, CommandErrorKind> {
    match validated(items, seq!["get"@], 1) {
        Ok(_) => match text_argument(items[1]) {
            Ok(key) => Ok(CommandView::Get { key }),
            Err(k) => Err(k),
        },
        Err(k) => Err(k),
    }
}

/// The `set` that the frames of a request stand for: the name, a key and
/// a frame of any kind.
pub open spec fn set_command(items: Seq<FrameView>) -> Result<CommandView, CommandErrorKind> {
    match validated(items, seq!["set"@], 2) {
        Ok(_) => match text_argument(items[1]) {
            Ok(key) => Ok(CommandView::SetCmd { key, value: items[2] }),
            Err(k) => Err(k),
        },
        Err(k) => Err(k),
    }
}

impl Get {
    /// The request for the frame under `key`.
    pub fn new(key: String) -> (r: Get)
        ensures
            r@ == (CommandView::Get { key: key@ }),
    {
        Get { key }
    }

    /// The key that is asked for.
    pub fn key(&self) -> (r: &String)
        ensures
            self@ == (CommandView::Get { key: r@ }),
    {
        &self.key
    }
}

impl SetCmd {
    /// The request to put `value` under `key`.
    pub fn new(key: String, value: RespFrame) -> (r: SetCmd)
        ensures
            r@ == (CommandView::SetCmd { key: key@, value: value@ }),
    {
        SetCmd { key, value }
    }

    /// The key that is set.
    pub fn key(&self) -> (r: &String)
        ensures
            self@ matches CommandView::SetCmd { key, .. } && key == r@,
    {
        &self.key
    }

    /// The frame that the key is set to.
    pub fn value(&self) -> (r: &RespFrame)
        ensures
            self@ matches CommandView::SetCmd { value, .. } && value == r@,
    {
        &self.value
    }
}

impl CommandExecutor for Get {
    fn execute(self, backend: &mut Backend) -> (r: RespFrame) {
        match backend.get(self.key.as_str()) {
            Some(value) => value,
            None => RespFrame::NullBulkString(RespNullBulkString),
        }
    }
}

impl CommandExecutor for SetCmd {
    fn execute(self, backend: &mut Backend) -> (r: RespFrame) {
        backend.set(self.key, self.value);
        resp_ok()
    }
}

impl TryFrom<RespArray> for Get {
    type Error = CommandError;

    fn try_from(value: RespArray) -> (r: Result<Self, CommandError>)
        ensures
            parsed_as(r, get_command(value@)),
    {
        let names = ["get"];
        match validate_command(&value, &names, 1) {
            Ok(_) => {},
            Err(e) => {
                return Err(e);
            },
        }
        let ghost items = value@;
        let mut args = match extract_args(value, 1) {
            Ok(args) => args,
            Err(e) => {
                return Err(e);
            },
        };
        proof {
            lemma_arguments(items, args@);
        }
        match args.pop() {
            Some(key) => match take_text(key) {
                Ok(key) => Ok(Get { key }),
                Err(e) => Err(e),
            },
            None => Err(CommandError::InvalidArgument("missing key".to_string())),
        }
    }
}

/// What `try_from` returns is stated by its own `ensures`: a command holds
/// strings, which no function on the mathematical values can build.
impl TryFromSpecImpl<RespArray> for Get {
    open spec fn obeys_try_from_spec() -> bool {
        false
    }

    open spec fn try_from_spec(value: RespArray) -> Result<Self, CommandError> {
        arbitrary()
    }
}

impl TryFrom<RespArray> for SetCmd {
    type Error = CommandError;

    fn try_from(value: RespArray) -> (r: Result<Self, CommandError>)
        ensures
            parsed_as(r, set_command(value@)),
    {
        let names = ["set"];
        match validate_command(&value, &names, 2) {
            Ok(_) => {},
            Err(e) => {
                return Err(e);
            },
        }
        let ghost items = value@;
        let mut args = match extract_args(value, 1) {
            Ok(args) => args,
            Err(e) => {
                return Err(e);
            },
        };
        proof {
            lemma_arguments(items, args@);
        }
        let value = args.pop();
        let key = args.pop();
        match (key, value) {
            (Some(key), Some(value)) => match take_text(key) {
                Ok(key) => Ok(SetCmd { key, value }),
                Err(e) => Err(e),
            },
            _ => Err(CommandError::InvalidArgument("missing key or value".to_string())),
        }
    }
}

/// What `try_from` returns is stated by its own `ensures`: a command holds
/// strings, which no function on the mathematical values can build.
impl TryFromSpecImpl<RespArray> for SetCmd {
    open spec fn obeys_try_from_spec() -> bool {
        false
    }

    open spec fn try_from_spec(value: RespArray) -> Result<Self, CommandError> {
        arbitrary()
    }
}

} // verus!
