use simple_redis::backend::Backend;
use simple_redis::cmd::{
    extract_args, validate_command, Command, CommandError, CommandExecutor, Get, HGet, HGetAll,
    HSet, SetCmd, UnknownCmd,
};
use simple_redis::resp::{
    BulkString, RespArray, RespFrame, RespMap, RespNullBulkString, SimpleString,
};

fn request(words: &[&[u8]]) -> RespArray {
    RespArray(
        words
            .iter()
            .map(|w| RespFrame::BulkString(BulkString(w.to_vec())))
            .collect(),
    )
}

fn bulk(text: &str) -> RespFrame {
    BulkString(text.into()).into()
}

fn ok() -> RespFrame {
    SimpleString("OK".into()).into()
}

#[test]
fn test_get_from_array() {
    let cmd = Get::try_from(request(&[b"get", b"hello"])).unwrap();
    assert_eq!(cmd.key(), "hello");
}

#[test]
fn test_set_from_array() {
    let cmd = SetCmd::try_from(request(&[b"set", b"hello", b"world"])).unwrap();
    assert_eq!(cmd.key(), "hello");
    assert_eq!(cmd.value(), &bulk("world"));
}

#[test]
fn test_set_takes_any_frame_as_value() {
    let array = RespArray(vec![bulk("set"), bulk("n"), RespFrame::Integer(7)]);
    let cmd = SetCmd::try_from(array).unwrap();
    assert_eq!(cmd.value(), &RespFrame::Integer(7));
}

#[test]
fn test_hget_from_array() {
    let cmd = HGet::try_from(request(&[b"hget", b"map", b"hello"])).unwrap();
    assert_eq!(cmd.key(), "map");
    assert_eq!(cmd.field(), "hello");
}

#[test]
fn test_hset_from_array() {
    let cmd = HSet::try_from(request(&[b"hset", b"map", b"hello", b"world"])).unwrap();
    assert_eq!(cmd.key(), "map");
    assert_eq!(cmd.field(), "hello");
    assert_eq!(cmd.value(), &bulk("world"));
}

#[test]
fn test_hgetall_from_array() {
    let cmd = HGetAll::try_from(request(&[b"hgetall", b"map"])).unwrap();
    assert_eq!(cmd.key(), "map");
}

#[test]
fn test_command_names_ignore_case() {
    assert!(matches!(
        Command::try_from(request(&[b"GET", b"k"])).unwrap(),
        Command::Get(_)
    ));
    assert!(matches!(
        Command::try_from(request(&[b"Set", b"k", b"v"])).unwrap(),
        Command::SetCmd(_)
    ));
    assert!(matches!(
        Command::try_from(request(&[b"hGeT", b"k", b"f"])).unwrap(),
        Command::HGet(_)
    ));
    assert!(matches!(
        Command::try_from(request(&[b"HSET", b"k", b"f", b"v"])).unwrap(),
        Command::HSet(_)
    ));
    assert!(matches!(
        Command::try_from(request(&[b"HGetAll", b"k"])).unwrap(),
        Command::HGetAll(_)
    ));
}

#[test]
fn test_unknown_name_is_an_unknown_command() {
    assert!(matches!(
        Command::try_from(request(&[b"ping"])).unwrap(),
        Command::UnknownCmd(_)
    ));
    assert!(matches!(
        Command::try_from(request(&[b"gets", b"k"])).unwrap(),
        Command::UnknownCmd(_)
    ));
    assert!(matches!(
        Command::try_from(request(&[b"", b"k"])).unwrap(),
        Command::UnknownCmd(_)
    ));
}

#[test]
fn test_frame_that_is_no_array_is_no_command() {
    assert!(matches!(
        Command::try_from(bulk("get")).unwrap_err(),
        CommandError::InvalidCommand(_)
    ));
    assert!(matches!(
        Command::try_from(RespFrame::Integer(1)).unwrap_err(),
        CommandError::InvalidCommand(_)
    ));
}

#[test]
fn test_array_without_a_name_is_no_command() {
    assert!(matches!(
        Command::try_from(RespArray(Vec::new())).unwrap_err(),
        CommandError::InvalidCommand(_)
    ));
    assert!(matches!(
        Command::try_from(RespArray(vec![RespFrame::Integer(1), bulk("k")])).unwrap_err(),
        CommandError::InvalidCommand(_)
    ));
    let frame: RespFrame = RespArray(vec![SimpleString("get".into()).into(), bulk("k")]).into();
    assert!(matches!(
        Command::try_from(frame).unwrap_err(),
        CommandError::InvalidCommand(_)
    ));
}

#[test]
fn test_wrong_number_of_arguments() {
    assert!(matches!(
        Command::try_from(request(&[b"get"])).unwrap_err(),
        CommandError::InvalidArgument(_)
    ));
    assert!(matches!(
        Command::try_from(request(&[b"get", b"a", b"b"])).unwrap_err(),
        CommandError::InvalidArgument(_)
    ));
    assert!(matches!(
        Command::try_from(request(&[b"set", b"a"])).unwrap_err(),
        CommandError::InvalidArgument(_)
    ));
    assert!(matches!(
        Command::try_from(request(&[b"hget", b"a"])).unwrap_err(),
        CommandError::InvalidArgument(_)
    ));
    assert!(matches!(
        Command::try_from(request(&[b"hset", b"a", b"b"])).unwrap_err(),
        CommandError::InvalidArgument(_)
    ));
    assert!(matches!(
        Command::try_from(request(&[b"hgetall"])).unwrap_err(),
        CommandError::InvalidArgument(_)
    ));
}

#[test]
fn test_key_of_the_wrong_kind() {
    let array = RespArray(vec![bulk("get"), RespFrame::Integer(1)]);
    assert!(matches!(
        Command::try_from(array).unwrap_err(),
        CommandError::InvalidArgument(_)
    ));
    let array = RespArray(vec![bulk("hget"), bulk("k"), RespFrame::Boolean(true)]);
    assert!(matches!(
        Command::try_from(array).unwrap_err(),
        CommandError::InvalidArgument(_)
    ));
}

#[test]
fn test_key_that_is_not_utf8() {
    assert!(matches!(
        Command::try_from(request(&[b"get", b"\xff\xfe"])).unwrap_err(),
        CommandError::InvalidArgument(_)
    ));
    assert!(matches!(
        Command::try_from(request(&[b"hset", b"k", b"\xc3", b"v"])).unwrap_err(),
        CommandError::InvalidArgument(_)
    ));
    assert!(Command::try_from(request(&[b"get", "k\u{e9}y".as_bytes()])).is_ok());
}

#[test]
fn test_typed_command_rejects_another_name() {
    assert!(matches!(
        Get::try_from(request(&[b"set", b"k"])).unwrap_err(),
        CommandError::InvalidCommand(_)
    ));
    assert!(matches!(
        HGetAll::try_from(RespArray(vec![RespFrame::Integer(1), bulk("k")])).unwrap_err(),
        CommandError::InvalidCommand(_)
    ));
}

#[test]
fn test_validate_command() {
    let array = request(&[b"GeT", b"k"]);
    assert!(validate_command(&array, &["get"], 1).is_ok());
    assert!(matches!(
        validate_command(&array, &["get"], 2).unwrap_err(),
        CommandError::InvalidArgument(_)
    ));
    assert!(matches!(
        validate_command(&array, &["set"], 1).unwrap_err(),
        CommandError::InvalidCommand(_)
    ));
    assert!(validate_command(&array, &["get", "k"], 0).is_ok());
    assert!(matches!(
        validate_command(&array, &["get"], usize::MAX).unwrap_err(),
        CommandError::InvalidArgument(_)
    ));
}

#[test]
fn test_extract_args() {
    let args = extract_args(request(&[b"set", b"k", b"v"]), 1).unwrap();
    assert_eq!(args, vec![bulk("k"), bulk("v")]);
    let args = extract_args(request(&[b"set", b"k", b"v"]), 3).unwrap();
    assert!(args.is_empty());
    let args = extract_args(request(&[b"set", b"k", b"v"]), 9).unwrap();
    assert!(args.is_empty());
    let args = extract_args(request(&[b"set", b"k", b"v"]), 0).unwrap();
    assert_eq!(args.len(), 3);
}

#[test]
fn test_set_then_get() {
    let mut backend = Backend::new();
    let set = Command::try_from(request(&[b"set", b"foo", b"bar"])).unwrap();
    assert_eq!(set.execute(&mut backend), ok());

    let get = Command::try_from(request(&[b"get", b"foo"])).unwrap();
    assert_eq!(get.execute(&mut backend), bulk("bar"));

    let get = Command::try_from(request(&[b"get", b"missing"])).unwrap();
    assert_eq!(
        get.execute(&mut backend),
        RespFrame::NullBulkString(RespNullBulkString)
    );
}

#[test]
fn test_set_overwrites() {
    let mut backend = Backend::new();
    SetCmd::new("k".into(), bulk("one")).execute(&mut backend);
    SetCmd::new("k".into(), bulk("two")).execute(&mut backend);
    assert_eq!(Get::new("k".into()).execute(&mut backend), bulk("two"));
}

#[test]
fn test_hset_then_hgetall() {
    let mut backend = Backend::new();
    let hset = Command::try_from(request(&[b"hset", b"h", b"f", b"v"])).unwrap();
    assert_eq!(hset.execute(&mut backend), ok());

    let hgetall = Command::try_from(request(&[b"hgetall", b"h"])).unwrap();
    let mut expected = RespMap::new();
    expected.insert("f".into(), bulk("v"));
    assert_eq!(hgetall.execute(&mut backend), RespFrame::RespMap(expected));

    let hget = Command::try_from(request(&[b"hget", b"h", b"f"])).unwrap();
    assert_eq!(hget.execute(&mut backend), bulk("v"));

    let hget = Command::try_from(request(&[b"hget", b"h", b"missing"])).unwrap();
    assert_eq!(
        hget.execute(&mut backend),
        RespFrame::NullBulkString(RespNullBulkString)
    );

    let hget = Command::try_from(request(&[b"hget", b"nohash", b"f"])).unwrap();
    assert_eq!(
        hget.execute(&mut backend),
        RespFrame::NullBulkString(RespNullBulkString)
    );
}

#[test]
fn test_hgetall_of_a_missing_key_is_empty() {
    let mut backend = Backend::new();
    assert_eq!(
        HGetAll::new("nothing".into()).execute(&mut backend),
        RespFrame::RespMap(RespMap::new())
    );
}

#[test]
fn test_keys_and_hashes_are_apart() {
    let mut backend = Backend::new();
    SetCmd::new("k".into(), bulk("plain")).execute(&mut backend);
    HSet::new("k".into(), "f".into(), bulk("hashed")).execute(&mut backend);
    assert_eq!(Get::new("k".into()).execute(&mut backend), bulk("plain"));
    assert_eq!(
        HGet::new("k".into(), "f".into()).execute(&mut backend),
        bulk("hashed")
    );
    assert_eq!(
        HGet::new("k".into(), "plain".into()).execute(&mut backend),
        RespFrame::NullBulkString(RespNullBulkString)
    );
}

#[test]
fn test_unknown_command_answers_ok() {
    let mut backend = Backend::new();
    SetCmd::new("k".into(), bulk("v")).execute(&mut backend);
    assert_eq!(UnknownCmd.execute(&mut backend), ok());
    assert_eq!(Get::new("k".into()).execute(&mut backend), bulk("v"));
}

#[test]
fn test_error_as_frame() {
    let error = Command::try_from(request(&[b"get"])).unwrap_err();
    assert_eq!(
        error.to_frame(),
        RespFrame::Error(simple_redis::resp::SimpleError("ERR invalid argument".into()))
    );
    let error = Command::try_from(RespFrame::Integer(1)).unwrap_err();
    assert_eq!(
        error.to_frame(),
        RespFrame::Error(simple_redis::resp::SimpleError("ERR invalid command".into()))
    );
    let error = Command::try_from(request(&[b"get", b"\xff"])).unwrap_err();
    assert_eq!(
        error.to_frame(),
        RespFrame::Error(simple_redis::resp::SimpleError("ERR invalid argument".into()))
    );
}
