//! The commands on hashes: `hget`, `hset` and `hgetall`.

use crate::backend::Backend;
use crate::cmd::{
    extract_args, lemma_arguments, parsed_as, resp_ok, take_text, text_argument, validate_command,
    validated, CommandError, CommandErrorKind, CommandExecutor, CommandView, HGet, HGetAll, HSet,
};
use crate::resp::{FrameView, RespArray, RespFrame, RespNullBulkString};
use crate::resp::map::RespMap;
use vstd::prelude::*;
use vstd::std_specs::convert::TryFromSpecImpl;

verus! {

/// The `hget` that the frames of a request stand for: the name, a key and
/// a field.
pub open spec fn hget_command(items: Seq<FrameView>) -> Result<CommandView, CommandErrorKind> {
    match validated(items, seq!["hget"@], 2) {
        Ok(_) => match text_argument(items[1]) {
            Ok(key) => match text_argument(items[2]) {
                Ok(field) => Ok(CommandView::HGet { key, field }),
                Err(k) => Err(k),
            },
            Err(k) => Err(k),
        },
        Err(k) => Err(k),
    }
}

/// The `hset` that the frames of a request stand for: the name, a key, a
/// field and a frame of any kind.
pub open spec fn hset_command(items: Seq<FrameView>) -> Result<CommandView, CommandErrorKind> {
    match validated(items, seq!["hset"@], 3) {
        Ok(_) => match text_argument(items[1]) {
            Ok(key) => match text_argument(items[2]) {
                Ok(field) => Ok(CommandView::HSet { key, field, value: items[3] }),
                Err(k) => Err(k),
            },
            Err(k) => Err(k),
        },
        Err(k) => Err(k),
    }
}

/// The `hgetall` that the frames of a request stand for: the name and a
/// key.
pub open spec fn hgetall_command(items: Seq<FrameView>) -> Result<CommandView, CommandErrorKind> {
    match validated(items, seq!["hgetall"@], 1) {
        Ok(_) => match text_argument(items[1]) {
            Ok(key) => Ok(CommandView::HGetAll { key }),
            Err(k) => Err(k),
        },
        Err(k) => Err(k),
    }
}

impl HGet {
    /// The request for the frame under `field` in the hash of `key`.
    pub fn new(key: String, field: String) -> (r: HGet)
        ensures
            r@ == (CommandView::HGet { key: key@, field: field@ }),
    {
        HGet { key, field }
    }

    /// The key of the hash.
    pub fn key(&self) -> (r: &String)
        ensures
            self@ matches CommandView::HGet { key, .. } && key == r@,
    {
        &self.key
    }

    /// The field that is asked for.
    pub fn field(&self) -> (r: &String)
        ensures
            self@ matches CommandView::HGet { field, .. } && field == r@,
    {
        &self.field
    }
}

impl HSet {
    /// The request to put `value` under `field` in the hash of `key`.
    pub fn new(key: String, field: String, value: RespFrame) -> (r: HSet)
        ensures
            r@ == (CommandView::HSet { key: key@, field: field@, value: value@ }),
    {
        HSet { key, field, value }
    }

    /// The key of the hash.
    pub fn key(&self) -> (r: &String)
        ensures
            self@ matches CommandView::HSet { key, .. } && key == r@,
    {
        &self.key
    }

    /// The field that is set.
    pub fn field(&self) -> (r: &String)
        ensures
            self@ matches CommandView::HSet { field, .. } && field == r@,
    {
        &self.field
    }

    /// The frame that the field is set to.
    pub fn value(&self) -> (r: &RespFrame)
        ensures
            self@ matches CommandView::HSet { value, .. } && value == r@,
    {
        &self.value
    }
}

impl HGetAll {
    /// The request for all the fields of the hash of `key`.
    pub fn new(key: String) -> (r: HGetAll)
        ensures
            r@ == (CommandView::HGetAll { key: key@ }),
    {
        HGetAll { key }
    }

    /// The key of the hash.
    pub fn key(&self) -> (r: &String)
        ensures
            self@ == (CommandView::HGetAll { key: r@ }),
    {
        &self.key
    }
}

impl CommandExecutor for HGet {
    fn execute(self, backend: &mut Backend) -> (r: RespFrame) {
        match backend.hget(self.key.as_str(), self.field.as_str()) {
            Some(value) => value,
            None => RespFrame::NullBulkString(RespNullBulkString),
        }
    }
}

impl CommandExecutor for HSet {
    fn execute(self, backend: &mut Backend) -> (r: RespFrame) {
        backend.hset(self.key, self.field, self.value);
        resp_ok()
    }
}

impl CommandExecutor for HGetAll {
    fn execute(self, backend: &mut Backend) -> (r: RespFrame) {
        match backend.hgetall(self.key.as_str()) {
            Some(hash) => RespFrame::RespMap(hash),
            None => RespFrame::RespMap(RespMap::new()),
        }
    }
}

impl TryFrom<RespArray> for HGet {
    type Error = CommandError;

    fn try_from(value: RespArray) -> (r: Result<Self, CommandError>)
        ensures
            parsed_as(r, hget_command(value@)),
    {
        let names = ["hget"];
        match validate_command(&value, &names, 2) {
            Ok(_) => {},
            Err(e) => {
                return Err(e);
            },
        }
        let ghost items = value@;
        let mut args = match extract_args(value, 1) {
            Ok(args) => args,
            Err(e) => {
                return Err(e);
            },
        };
        proof {
            lemma_arguments(items, args@);
        }
        let field = args.pop();
        let key = args.pop();
        match (key, field) {
            (Some(key), Some(field)) => {
                let key = match take_text(key) {
                    Ok(key) => key,
                    Err(e) => {
                        return Err(e);
                    },
                };
                match take_text(field) {
                    Ok(field) => Ok(HGet { key, field }),
                    Err(e) => Err(e),
                }
            },
            _ => Err(CommandError::InvalidArgument("missing key or field".to_string())),
        }
    }
}

/// What `try_from` returns is stated by its own `ensures`: a command holds
/// strings, which no function on the mathematical values can build.
impl TryFromSpecImpl<RespArray> for HGet {
    open spec fn obeys_try_from_spec() -> bool {
        false
    }

    open spec fn try_from_spec(value: RespArray) -> Result<Self, CommandError> {
        arbitrary()
    }
}

impl TryFrom<RespArray> for HSet {
    type Error = CommandError;

    fn try_from(value: RespArray) -> (r: Result<Self, CommandError>)
        ensures
            parsed_as(r, hset_command(value@)),
    {
        let names = ["hset"];
        match validate_command(&value, &names, 3) {
            Ok(_) => {},
            Err(e) => {
                return Err(e);
            },
        }
        let ghost items = value@;
        let mut args = match extract_args(value, 1) {
            Ok(args) => args,
            Err(e) => {
                return Err(e);
            },
        };
        proof {
            lemma_arguments(items, args@);
        }
        let value = args.pop();
        let field = args.pop();
        let key = args.pop();
        match (key, field, value) {
            (Some(key), Some(field), Some(value)) => {
                let key = match take_text(key) {
                    Ok(key) => key,
                    Err(e) => {
                        return Err(e);
                    },
                };
                match take_text(field) {
                    Ok(field) => Ok(HSet { key, field, value }),
                    Err(e) => Err(e),
                }
            },
            _ => Err(CommandError::InvalidArgument("missing key, field or value".to_string())),
        }
    }
}

/// What `try_from` returns is stated by its own `ensures`: a command holds
/// strings, which no function on the mathematical values can build.
impl TryFromSpecImpl<RespArray> for HSet {
    open spec fn obeys_try_from_spec() -> bool {
        false
    }

    open spec fn try_from_spec(value: RespArray) -> Result<Self, CommandError> {
        arbitrary()
    }
}

impl TryFrom<RespArray> for HGetAll {
    type Error = CommandError;

    fn try_from(value: RespArray) -> (r: Result<Self, CommandError>)
        ensures
            parsed_as(r, hgetall_command(value@)),
    {
        let names = ["hgetall"];
        match validate_command(&value, &names, 1) {
            Ok(_) => {},
            Err(e) => {
                return Err(e);
            },
        }
        let ghost items = value@;
        let mut args = match extract_args(value, 1) {
            Ok(args) => args,
            Err(e) => {
                return Err(e);
            },
        };
        proof {
            lemma_arguments(items, args@);
        }
        match args.pop() {
            Some(key) => match take_text(key) {
                Ok(key) => Ok(HGetAll { key }),
                Err(e) => Err(e),
            },
            None => Err(CommandError::InvalidArgument("missing key".to_string())),
        }
    }
}

/// What `try_from` returns is stated by its own `ensures`: a command holds
/// strings, which no function on the mathematical values can build.
impl TryFromSpecImpl<RespArray> for HGetAll {
    open spec fn obeys_try_from_spec() -> bool {
        false
    }

    open spec fn try_from_spec(value: RespArray) -> Result<Self, CommandError> {
        arbitrary()
    }
}

} // verus!
