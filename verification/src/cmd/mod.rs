//! Commands: what a request asks of the store, how it is read from a frame
//! and what it does.

pub mod hmap;
pub mod map;

use crate::backend::{
    hash_of, lemma_get_after_set, lemma_get_other_after_set, lemma_hget_after_hset,
    lemma_store_stays_sorted, Backend, BackendView,
};
use crate::resp::{
    frame_wf, frames_view, lemma_frames_view, FrameView, RespArray, RespFrame, SimpleError,
    SimpleString,
};
use crate::resp::map::upsert;
use crate::resp::text::{is_lower_equal, lemma_ascii_plain_text, lower_equals, plain_text};
use vstd::prelude::*;
use vstd::std_specs::convert::TryFromSpecImpl;
use vstd::utf8::{decode_utf8, encode_utf8, valid_utf8};

verus! {

/// Why a frame is no command.
#[derive(Debug)]
pub enum CommandError {
    /// The frame is no array, or does not begin with the name of a command
    /// as a bulk string.
    InvalidCommand(String),
    /// The command has the wrong number of arguments, or one of the wrong
    /// kind: a key or a field must be a bulk string of valid UTF-8.
    InvalidArgument(String),
}

/// The kind of a `CommandError`, without its message.
pub enum CommandErrorKind {
    InvalidCommand,
    InvalidArgument,
}

/// What a peer is told of a request that is no command.
pub open spec fn error_text(k: CommandErrorKind) -> Seq<char> {
    match k {
        CommandErrorKind::InvalidCommand => "ERR invalid command"@,
        CommandErrorKind::InvalidArgument => "ERR invalid argument"@,
    }
}

/// What a peer is told of a request that is no command fits on one line.
pub proof fn lemma_error_text_plain(k: CommandErrorKind)
    ensures
        plain_text(error_text(k)),
{
    reveal_strlit("ERR invalid command");
    reveal_strlit("ERR invalid argument");
    lemma_ascii_plain_text(error_text(k));
}

impl CommandError {
    /// The frame that tells a peer of the error: a simple error of one
    /// line.
    pub fn to_frame(&self) -> (r: RespFrame)
        ensures
            r@ == FrameView::Error(error_text(self@)),
            frame_wf(r@),
    {
        proof {
            lemma_error_text_plain(self@);
        }
        let text = match self {
            CommandError::InvalidCommand(_) => "ERR invalid command",
            CommandError::InvalidArgument(_) => "ERR invalid argument",
        };
        RespFrame::Error(SimpleError(text.to_string()))
    }
}

impl View for CommandError {
    type V = CommandErrorKind;

    open spec fn view(&self) -> CommandErrorKind {
        match self {
            CommandError::InvalidCommand(_) => CommandErrorKind::InvalidCommand,
            CommandError::InvalidArgument(_) => CommandErrorKind::InvalidArgument,
        }
    }
}

/// Whether `items` begin with the words of `names`, each a bulk string that
/// is the name but for the case of its ASCII letters.
pub open spec fn names_match(items: Seq<FrameView>, names: Seq<Seq<char>>) -> bool {
    forall|i: int|
        0 <= i < names.len() && i < items.len() ==> (#[trigger] items[i]) is BulkString
            && lower_equals(items[i]->BulkString_0, encode_utf8(names[i]))
}

/// What `validate_command` makes of the frames of a request: they must be
/// the names and `n_args` arguments, and must begin with the names.
pub open spec fn validated(items: Seq<FrameView>, names: Seq<Seq<char>>, n_args: nat) -> Result<
    (),
    CommandErrorKind,
> {
    if items.len() != n_args + names.len() {
        Err(CommandErrorKind::InvalidArgument)
    } else if !names_match(items, names) {
        Err(CommandErrorKind::InvalidCommand)
    } else {
        Ok(())
    }
}

/// The names that a slice of words holds.
pub open spec fn words(names: Seq<&'static str>) -> Seq<Seq<char>> {
    Seq::new(names.len(), |i: int| names[i]@)
}

/// Tests that a request is the words of a command and the number of
/// arguments that it takes.
pub fn validate_command(value: &RespArray, names: &[&'static str], n_args: usize) -> (r: Result<
    (),
    CommandError,
>)
    ensures
        match validated(value@, words(names@), n_args as nat) {
            Ok(_) => r is Ok,
            Err(k) => r matches Err(e) && e@ == k,
        },
{
    proof {
        lemma_frames_view(value.0@);
    }
    if names.len() > usize::MAX - n_args || value.0.len() != n_args + names.len() {
        assert(value@.len() == value.0.len());
        return Err(CommandError::InvalidArgument("wrong number of arguments".to_string()));
    }
    let mut i: usize = 0;
    while i < names.len()
        invariant
            i <= names.len(),
            value.0.len() == n_args + names.len(),
            value@.len() == value.0.len(),
            forall|j: int| 0 <= j < value.0.len() ==> (#[trigger] value@[j]) == value.0@[j]@,
            forall|j: int|
                0 <= j < i ==> (#[trigger] value@[j]) is BulkString && lower_equals(
                    value@[j]->BulkString_0,
                    encode_utf8(words(names@)[j]),
                ),
        decreases names.len() - i,
    {
        match &value.0[i] {
            RespFrame::BulkString(cmd) => {
                if !is_lower_equal(cmd.0.as_slice(), names[i].as_bytes()) {
                    return Err(CommandError::InvalidCommand("unexpected command".to_string()));
                }
            },
            _ => {
                assert(!(value@[i as int] is BulkString));
                return Err(
                    CommandError::InvalidCommand("command must be a bulk string".to_string()),
                );
            },
        }
        i += 1;
    }
    Ok(())
}

/// The frames of a request from place `start` on; none where the request
/// is shorter.
pub open spec fn arguments(items: Seq<FrameView>, start: nat) -> Seq<FrameView> {
    if start <= items.len() {
        items.skip(start as int)
    } else {
        Seq::empty()
    }
}

/// Takes the frames of a request from place `start` on.
pub fn extract_args(value: RespArray, start: usize) -> (r: Result<Vec<RespFrame>, CommandError>)
    ensures
        r matches Ok(args) && frames_view(args@) == arguments(value@, start as nat),
{
    let mut all = value.0;
    proof {
        lemma_frames_view(all@);
    }
    if start > all.len() {
        return Ok(Vec::new());
    }
    let args = all.split_off(start);
    proof {
        lemma_frames_view(args@);
    }
    Ok(args)
}

/// The arguments of a request are the frames behind its name, each at its
/// place.
pub proof fn lemma_arguments(items: Seq<FrameView>, args: Seq<RespFrame>)
    requires
        frames_view(args) == arguments(items, 1),
        items.len() >= 1,
    ensures
        args.len() == items.len() - 1,
        forall|j: int| 0 <= j < args.len() ==> (#[trigger] args[j])@ == items[j + 1],
{
    lemma_frames_view(args);
    assert forall|j: int| 0 <= j < args.len() implies (#[trigger] args[j])@ == items[j + 1] by {
        assert(frames_view(args)[j] == items.skip(1)[j]);
    }
}

/// The text of a key or a field: the argument must be a bulk string of
/// valid UTF-8.
pub open spec fn text_argument(f: FrameView) -> Result<Seq<char>, CommandErrorKind> {
    match f {
        FrameView::BulkString(b) => if valid_utf8(b) {
            Ok(decode_utf8(b))
        } else {
            Err(CommandErrorKind::InvalidArgument)
        },
        _ => Err(CommandErrorKind::InvalidArgument),
    }
}

/// Reads an argument as the text of a key or a field.
pub fn take_text(frame: RespFrame) -> (r: Result<String, CommandError>)
    ensures
        match text_argument(frame@) {
            Ok(text) => r matches Ok(s) && s@ == text,
            Err(k) => r matches Err(e) && e@ == k,
        },
{
    match frame {
        RespFrame::BulkString(b) => match String::from_utf8(b.0) {
            Ok(s) => Ok(s),
            Err(_) => Err(
                CommandError::InvalidArgument("argument must be valid UTF-8".to_string()),
            ),
        },
        _ => Err(CommandError::InvalidArgument("argument must be a bulk string".to_string())),
    }
}

/// A request for the frame under a key.
#[derive(Debug)]
pub struct Get {
    pub(crate) key: String,
}

/// A request to put a frame under a key.
#[derive(Debug)]
pub struct SetCmd {
    pub(crate) key: String,
    pub(crate) value: RespFrame,
}

/// A request for the frame under a field of a hash.
#[derive(Debug)]
pub struct HGet {
    pub(crate) key: String,
    pub(crate) field: String,
}

/// A request to put a frame under a field of a hash.
#[derive(Debug)]
pub struct HSet {
    pub(crate) key: String,
    pub(crate) field: String,
    pub(crate) value: RespFrame,
}

/// A request for all the fields of a hash.
#[derive(Debug)]
pub struct HGetAll {
    pub(crate) key: String,
}

/// A request whose name is that of no command.
#[derive(Debug)]
pub struct UnknownCmd;

/// A request, ready to be carried out.
#[derive(Debug)]
pub enum Command {
    Get(Get),
    SetCmd(SetCmd),
    HGet(HGet),
    HSet(HSet),
    HGetAll(HGetAll),
    UnknownCmd(UnknownCmd),
}

/// The mathematical value of a command.
pub enum CommandView {
    Get { key: Seq<char> },
    SetCmd { key: Seq<char>, value: FrameView },
    HGet { key: Seq<char>, field: Seq<char> },
    HSet { key: Seq<char>, field: Seq<char>, value: FrameView },
    HGetAll { key: Seq<char> },
    UnknownCmd,
}

impl View for Get {
    type V = CommandView;

    open(crate) spec fn view(&self) -> CommandView {
        CommandView::Get { key: self.key@ }
    }
}

impl View for SetCmd {
    type V = CommandView;

    open(crate) spec fn view(&self) -> CommandView {
        CommandView::SetCmd { key: self.key@, value: self.value@ }
    }
}

impl View for HGet {
    type V = CommandView;

    open(crate) spec fn view(&self) -> CommandView {
        CommandView::HGet { key: self.key@, field: self.field@ }
    }
}

impl View for HSet {
    type V = CommandView;

    open(crate) spec fn view(&self) -> CommandView {
        CommandView::HSet { key: self.key@, field: self.field@, value: self.value@ }
    }
}

impl View for HGetAll {
    type V = CommandView;

    open(crate) spec fn view(&self) -> CommandView {
        CommandView::HGetAll { key: self.key@ }
    }
}

impl View for UnknownCmd {
    type V = CommandView;

    open spec fn view(&self) -> CommandView {
        CommandView::UnknownCmd
    }
}

impl View for Command {
    type V = CommandView;

    open spec fn view(&self) -> CommandView {
        match self {
            Command::Get(c) => c@,
            Command::SetCmd(c) => c@,
            Command::HGet(c) => c@,
            Command::HSet(c) => c@,
            Command::HGetAll(c) => c@,
            Command::UnknownCmd(c) => c@,
        }
    }
}

/// The answer to a request that was carried out and gives nothing back:
/// the simple string `OK`.
pub open spec fn ok_frame() -> FrameView {
    FrameView::SimpleString("OK"@)
}

/// The answer to a request for a frame: the frame, or the null bulk
/// string where there is none.
pub open spec fn found_or_null(found: Option<FrameView>) -> FrameView {
    match found {
        Some(v) => v,
        None => FrameView::NullBulkString,
    }
}

/// The frame that answers a command, given what the store holds.
pub open spec fn response(cmd: CommandView, store: BackendView) -> FrameView {
    match cmd {
        CommandView::Get { key } => found_or_null(store.get(key)),
        CommandView::SetCmd { .. } => ok_frame(),
        CommandView::HGet { key, field } => found_or_null(store.hget(key, field)),
        CommandView::HSet { .. } => ok_frame(),
        CommandView::HGetAll { key } => FrameView::RespMap(hash_of(store.hmap, key)),
        CommandView::UnknownCmd => ok_frame(),
    }
}

/// What the store holds after a command was carried out.
pub open spec fn effect(cmd: CommandView, store: BackendView) -> BackendView {
    match cmd {
        CommandView::SetCmd { key, value } => store.set(key, value),
        CommandView::HSet { key, field, value } => store.hset(key, field, value),
        _ => store,
    }
}

/// A `get` behind a `set` of the same key answers with the frame that was
/// set; a `get` of any other key answers as it did before.
pub proof fn lemma_set_then_get(
    store: BackendView,
    key: Seq<char>,
    value: FrameView,
    other: Seq<char>,
)
    ensures
        response(
            CommandView::Get { key },
            effect(CommandView::SetCmd { key, value }, store),
        ) == value,
        other != key ==> response(
            CommandView::Get { key: other },
            effect(CommandView::SetCmd { key, value }, store),
        ) == response(CommandView::Get { key: other }, store),
{
    lemma_get_after_set(store, key, value);
    if other != key {
        lemma_get_other_after_set(store, key, value, other);
    }
}

/// An `hget` behind an `hset` of the same key and field answers with the
/// frame that was set, and an `hgetall` of that key with the hash that
/// holds it.
pub proof fn lemma_hset_then_hget(
    store: BackendView,
    key: Seq<char>,
    field: Seq<char>,
    value: FrameView,
)
    ensures
        response(
            CommandView::HGet { key, field },
            effect(CommandView::HSet { key, field, value }, store),
        ) == value,
        response(
            CommandView::HGetAll { key },
            effect(CommandView::HSet { key, field, value }, store),
        ) == FrameView::RespMap(upsert(hash_of(store.hmap, key), field, value)),
{
    lemma_hget_after_hset(store, key, field, value);
}

/// Only `set` and `hset` change the store, each its own map, and every
/// command leaves the keys and fields of the store in ascending order.
pub proof fn lemma_effect(cmd: CommandView, store: BackendView)
    ensures
        !(cmd is SetCmd) && !(cmd is HSet) ==> effect(cmd, store) == store,
        cmd is SetCmd ==> effect(cmd, store).hmap == store.hmap,
        cmd is HSet ==> effect(cmd, store).map == store.map,
        store.wf() ==> effect(cmd, store).wf(),
{
    match cmd {
        CommandView::SetCmd { key, value } => {
            if store.wf() {
                lemma_store_stays_sorted(store, key, key, value);
            }
        },
        CommandView::HSet { key, field, value } => {
            if store.wf() {
                lemma_store_stays_sorted(store, key, field, value);
            }
        },
        _ => {},
    }
}

/// Something that can be carried out on the store and answers with a
/// frame.
pub trait CommandExecutor: View<V = CommandView> + Sized {
    /// Carries the command out: the store is changed as the command says,
    /// and the answer is returned.
    fn execute(self, backend: &mut Backend) -> (r: RespFrame)
        ensures
            r@ == response(self@, old(backend)@),
            final(backend)@ == effect(self@, old(backend)@),
            old(backend)@.wf() ==> final(backend)@.wf(),
    ;
}

/// The frame `OK`.
pub fn resp_ok() -> (r: RespFrame)
    ensures
        r@ == ok_frame(),
{
    RespFrame::SimpleSting(SimpleString("OK".to_string()))
}

impl CommandExecutor for UnknownCmd {
    fn execute(self, backend: &mut Backend) -> (r: RespFrame) {
        resp_ok()
    }
}

impl CommandExecutor for Command {
    fn execute(self, backend: &mut Backend) -> (r: RespFrame) {
        match self {
            Command::Get(c) => c.execute(backend),
            Command::SetCmd(c) => c.execute(backend),
            Command::HGet(c) => c.execute(backend),
            Command::HSet(c) => c.execute(backend),
            Command::HGetAll(c) => c.execute(backend),
            Command::UnknownCmd(c) => c.execute(backend),
        }
    }
}

/// Whether the first frame of a request is a bulk string that is `name`
/// but for the case of its ASCII letters.
pub open spec fn is_named(items: Seq<FrameView>, name: Seq<char>) -> bool {
    items.len() > 0 && items[0] is BulkString && lower_equals(
        items[0]->BulkString_0,
        encode_utf8(name),
    )
}

/// The command that the frames of a request stand for. The first must be
/// a bulk string; where it names no command, the request is unknown.
pub open spec fn command_of_array(items: Seq<FrameView>) -> Result<CommandView, CommandErrorKind> {
    if items.len() == 0 || !(items[0] is BulkString) {
        Err(CommandErrorKind::InvalidCommand)
    } else if is_named(items, "get"@) {
        map::get_command(items)
    } else if is_named(items, "set"@) {
        map::set_command(items)
    } else if is_named(items, "hget"@) {
        hmap::hget_command(items)
    } else if is_named(items, "hset"@) {
        hmap::hset_command(items)
    } else if is_named(items, "hgetall"@) {
        hmap::hgetall_command(items)
    } else {
        Ok(CommandView::UnknownCmd)
    }
}

/// The command that a frame stands for: the frame must be an array.
pub open spec fn command_of(frame: FrameView) -> Result<CommandView, CommandErrorKind> {
    match frame {
        FrameView::Array(items) => command_of_array(items),
        _ => Err(CommandErrorKind::InvalidCommand),
    }
}

/// Whether a command was read as the grammar of commands says.
pub open spec fn parsed_as<C: View<V = CommandView>>(
    r: Result<C, CommandError>,
    expected: Result<CommandView, CommandErrorKind>,
) -> bool {
    match expected {
        Ok(cmd) => r matches Ok(c) && c@ == cmd,
        Err(k) => r matches Err(e) && e@ == k,
    }
}

/// Tests whether the first frame of a request is a bulk string that is
/// `name` but for the case of its ASCII letters.
fn is_called(value: &RespArray, name: &str) -> (r: bool)
    requires
        value.0.len() > 0,
    ensures
        r == is_named(value@, name@),
{
    proof {
        lemma_frames_view(value.0@);
    }
    match &value.0[0] {
        RespFrame::BulkString(cmd) => is_lower_equal(cmd.0.as_slice(), name.as_bytes()),
        _ => false,
    }
}

impl TryFrom<RespArray> for Command {
    type Error = CommandError;

    fn try_from(value: RespArray) -> (r: Result<Self, CommandError>)
        ensures
            parsed_as(r, command_of_array(value@)),
    {
        proof {
            lemma_frames_view(value.0@);
        }
        if value.0.len() == 0 {
            return Err(CommandError::InvalidCommand("command must not be empty".to_string()));
        }
        let named = match &value.0[0] {
            RespFrame::BulkString(_) => true,
            _ => false,
        };
        if !named {
            return Err(
                CommandError::InvalidCommand(
                    "command must have a bulk string as its first argument".to_string(),
                ),
            );
        }
        if is_called(&value, "get") {
            match Get::try_from(value) {
                Ok(c) => Ok(Command::Get(c)),
                Err(e) => Err(e),
            }
        } else if is_called(&value, "set") {
            match SetCmd::try_from(value) {
                Ok(c) => Ok(Command::SetCmd(c)),
                Err(e) => Err(e),
            }
        } else if is_called(&value, "hget") {
            match HGet::try_from(value) {
                Ok(c) => Ok(Command::HGet(c)),
                Err(e) => Err(e),
            }
        } else if is_called(&value, "hset") {
            match HSet::try_from(value) {
                Ok(c) => Ok(Command::HSet(c)),
                Err(e) => Err(e),
            }
        } else if is_called(&value, "hgetall") {
            match HGetAll::try_from(value) {
                Ok(c) => Ok(Command::HGetAll(c)),
                Err(e) => Err(e),
            }
        } else {
            Ok(Command::UnknownCmd(UnknownCmd))
        }
    }
}

/// What `try_from` returns is stated by its own `ensures`: a command holds
/// strings, which no function on the mathematical values can build.
impl TryFromSpecImpl<RespArray> for Command {
    open spec fn obeys_try_from_spec() -> bool {
        false
    }

    open spec fn try_from_spec(value: RespArray) -> Result<Self, CommandError> {
        arbitrary()
    }
}

impl TryFrom<RespFrame> for Command {
    type Error = CommandError;

    fn try_from(value: RespFrame) -> (r: Result<Self, CommandError>)
        ensures
            parsed_as(r, command_of(value@)),
    {
        match value {
            RespFrame::Array(array) => Command::try_from(array),
            _ => Err(CommandError::InvalidCommand("command must be an array".to_string())),
        }
    }
}

/// What `try_from` returns is stated by its own `ensures`: a command holds
/// strings, which no function on the mathematical values can build.
impl TryFromSpecImpl<RespFrame> for Command {
    open spec fn obeys_try_from_spec() -> bool {
        false
    }

    open spec fn try_from_spec(value: RespFrame) -> Result<Self, CommandError> {
        arbitrary()
    }
}

} // verus!
