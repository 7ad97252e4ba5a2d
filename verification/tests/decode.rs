use bytes::{BufMut, BytesMut};
use simple_redis::resp::{
    BulkString, RespArray, RespDecode, RespDouble, RespError, RespFrame, RespMap, RespNull,
    RespNullArray, RespNullBulkString, RespSet, SimpleError, SimpleString,
};

fn buffer(bytes: &[u8]) -> BytesMut {
    let mut buf = BytesMut::new();
    buf.extend_from_slice(bytes);
    buf
}

fn double(value: f64) -> RespDouble {
    RespDouble::parse(format!("{:e}", value).as_bytes()).unwrap()
}

#[test]
fn test_simple_string_decode() {
    let mut buf = BytesMut::new();
    buf.extend_from_slice(b"+OK\r\n");
    let ss = SimpleString::decode(&mut buf).unwrap();
    assert_eq!(ss, SimpleString("OK".into()));

    buf.extend_from_slice(b"+hello\r\n");
    let ss = SimpleString::decode(&mut buf).unwrap();
    assert_eq!(ss, SimpleString("hello".into()));

    buf.extend_from_slice(b"+hello\r");
    let ss = SimpleString::decode(&mut buf);
    assert_eq!(ss.unwrap_err(), RespError::NotComplete);

    buf.put_u8(b'\n');
    let ss = SimpleString::decode(&mut buf).unwrap();
    assert_eq!(ss, SimpleString("hello".into()));
}

#[test]
fn test_simple_error_decode() {
    let mut buf = BytesMut::new();
    buf.extend_from_slice(b"-OK\r\n");
    let ss = SimpleError::decode(&mut buf).unwrap();
    assert_eq!(ss, SimpleError("OK".into()));

    buf.extend_from_slice(b"-hello\r\n");
    let ss = SimpleError::decode(&mut buf).unwrap();
    assert_eq!(ss, SimpleError("hello".into()));

    buf.extend_from_slice(b"-hello\r");
    let ss = SimpleError::decode(&mut buf);
    assert_eq!(ss.unwrap_err(), RespError::NotComplete);

    buf.put_u8(b'\n');
    let ss = SimpleError::decode(&mut buf).unwrap();
    assert_eq!(ss, SimpleError("hello".into()));
}

#[test]
fn test_simple_bulk_string_decode() {
    let mut buf = BytesMut::new();
    buf.extend_from_slice(b"$3\r\nabc\r\n");
    let ss = BulkString::decode(&mut buf).unwrap();
    assert_eq!(ss, BulkString("abc".into()));

    buf.extend_from_slice(b"$5\r\nabcde\r\n");
    let ss = BulkString::decode(&mut buf).unwrap();
    assert_eq!(ss, BulkString("abcde".into()));

    buf.extend_from_slice(b"$5\r\nabcde\r");
    let ss = BulkString::decode(&mut buf);
    assert_eq!(ss.unwrap_err(), RespError::NotComplete);

    buf.put_u8(b'\n');
    let ss = BulkString::decode(&mut buf).unwrap();
    assert_eq!(ss, BulkString("abcde".into()));
    assert!(buf.is_empty());
}

#[test]
fn test_null_bulk_string_decode() {
    let mut buf = BytesMut::new();
    buf.extend_from_slice(b"$-1\r\n");
    let ss = RespNullBulkString::decode(&mut buf).unwrap();
    assert_eq!(ss, RespNullBulkString);
}

#[test]
fn test_resp_null_decode() {
    let mut buf = BytesMut::new();
    buf.extend_from_slice(b"_\r\n");
    let ss = RespNull::decode(&mut buf).unwrap();
    assert_eq!(ss, RespNull);
}

#[test]
fn test_resp_null_array_decode() {
    let mut buf = BytesMut::new();
    buf.extend_from_slice(b"*-1\r\n");
    let ss = RespNullArray::decode(&mut buf).unwrap();
    assert_eq!(ss, RespNullArray);
}

#[test]
fn test_partial_buffer_is_left_untouched() {
    let mut buf = buffer(b"+hello\r");
    assert_eq!(
        RespFrame::decode(&mut buf).unwrap_err(),
        RespError::NotComplete
    );
    assert_eq!(&buf[..], b"+hello\r");

    buf.extend_from_slice(b"\n:+1\r\n");
    let frame = RespFrame::decode(&mut buf).unwrap();
    assert_eq!(frame, RespFrame::SimpleSting(SimpleString("hello".into())));
    assert_eq!(&buf[..], b":+1\r\n");
}

#[test]
fn test_sentinels_are_distinct() {
    let null_bulk = RespFrame::decode(&mut buffer(b"$-1\r\n")).unwrap();
    let null_array = RespFrame::decode(&mut buffer(b"*-1\r\n")).unwrap();
    let null = RespFrame::decode(&mut buffer(b"_\r\n")).unwrap();
    let empty_bulk = RespFrame::decode(&mut buffer(b"$0\r\n\r\n")).unwrap();
    let empty_array = RespFrame::decode(&mut buffer(b"*0\r\n")).unwrap();

    assert_eq!(null_bulk, RespFrame::NullBulkString(RespNullBulkString));
    assert_eq!(null_array, RespFrame::NullArray(RespNullArray));
    assert_eq!(null, RespFrame::Null(RespNull));
    assert_eq!(empty_bulk, RespFrame::BulkString(BulkString(Vec::new())));
    assert_eq!(empty_array, RespFrame::Array(RespArray(Vec::new())));

    assert_ne!(null_bulk, null_array);
    assert_ne!(null_bulk, null);
    assert_ne!(null_array, null);
    assert_ne!(null_bulk, empty_bulk);
    assert_ne!(null_array, empty_array);
    assert_ne!(null, empty_bulk);
    assert_ne!(null, empty_array);
}

#[test]
fn test_integer_decode() {
    assert_eq!(i64::decode(&mut buffer(b":+1234\r\n")).unwrap(), 1234);
    assert_eq!(i64::decode(&mut buffer(b":-1234\r\n")).unwrap(), -1234);
    assert_eq!(i64::decode(&mut buffer(b":1234\r\n")).unwrap(), 1234);
    assert_eq!(i64::decode(&mut buffer(b":0\r\n")).unwrap(), 0);
    assert_eq!(
        i64::decode(&mut buffer(b":-9223372036854775808\r\n")).unwrap(),
        i64::MIN
    );
    assert_eq!(
        i64::decode(&mut buffer(b":+9223372036854775807\r\n")).unwrap(),
        i64::MAX
    );
    assert_eq!(
        i64::decode(&mut buffer(b":9223372036854775808\r\n")).unwrap_err(),
        RespError::ParseIntError
    );
    assert_eq!(
        i64::decode(&mut buffer(b":12a\r\n")).unwrap_err(),
        RespError::ParseIntError
    );
    assert_eq!(
        i64::decode(&mut buffer(b":\r\n")).unwrap_err(),
        RespError::ParseIntError
    );
    assert_eq!(
        i64::decode(&mut buffer(b":+\r\n")).unwrap_err(),
        RespError::ParseIntError
    );
    assert_eq!(
        i64::decode(&mut buffer(b":12")).unwrap_err(),
        RespError::NotComplete
    );
}

#[test]
fn test_boolean_decode() {
    assert!(bool::decode(&mut buffer(b"#t\r\n")).unwrap());
    assert!(!bool::decode(&mut buffer(b"#f\r\n")).unwrap());
    assert!(matches!(
        bool::decode(&mut buffer(b"#x\r\n")).unwrap_err(),
        RespError::InvalidFrame(_)
    ));
    assert!(matches!(
        bool::decode(&mut buffer(b"#tt\r\n")).unwrap_err(),
        RespError::InvalidFrame(_)
    ));
    assert_eq!(
        bool::decode(&mut buffer(b"#t\r")).unwrap_err(),
        RespError::NotComplete
    );
}

#[test]
fn test_null_decode_rejects_payload() {
    assert!(matches!(
        RespNull::decode(&mut buffer(b"_x\r\n")).unwrap_err(),
        RespError::InvalidFrame(_)
    ));
}

#[test]
fn test_double_decode() {
    assert_eq!(
        RespDouble::decode(&mut buffer(b",+123.456\r\n")).unwrap(),
        double(123.456)
    );
    assert_eq!(
        RespDouble::decode(&mut buffer(b",-1.23456e-9\r\n")).unwrap(),
        double(-1.23456e-9)
    );
    assert_eq!(
        RespDouble::decode(&mut buffer(b",1.5\r\n")).unwrap(),
        double(1.5)
    );
    assert_eq!(
        RespDouble::decode(&mut buffer(b",1.5E3\r\n")).unwrap(),
        double(1500.0)
    );
    assert_eq!(
        RespDouble::decode(&mut buffer(b",0015.00\r\n")).unwrap(),
        double(15.0)
    );
    assert_eq!(
        RespDouble::decode(&mut buffer(b",.5\r\n")).unwrap(),
        double(0.5)
    );
    assert_eq!(
        RespDouble::decode(&mut buffer(b",abc\r\n")).unwrap_err(),
        RespError::ParseFloatError
    );
    assert_eq!(
        RespDouble::decode(&mut buffer(b",\r\n")).unwrap_err(),
        RespError::ParseFloatError
    );
    assert_eq!(
        RespDouble::decode(&mut buffer(b",1.2.3\r\n")).unwrap_err(),
        RespError::ParseFloatError
    );
    assert_eq!(
        RespDouble::decode(&mut buffer(b",1e\r\n")).unwrap_err(),
        RespError::ParseFloatError
    );
    assert_eq!(
        RespDouble::decode(&mut buffer(b",1e99999999999999999999\r\n")).unwrap_err(),
        RespError::ParseFloatError
    );
}

#[test]
fn test_bulk_string_decode_errors() {
    assert_eq!(
        BulkString::decode(&mut buffer(b"$3\r\nabcde\r\n")).unwrap_err(),
        RespError::InvalidFrameLength(3)
    );
    assert_eq!(
        BulkString::decode(&mut buffer(b"$x\r\nabc\r\n")).unwrap_err(),
        RespError::ParseIntError
    );
    assert_eq!(
        BulkString::decode(&mut buffer(b"$-2\r\n")).unwrap_err(),
        RespError::ParseIntError
    );
    assert_eq!(
        BulkString::decode(&mut buffer(b"$99999999999999999999999\r\n")).unwrap_err(),
        RespError::ParseIntError
    );
    assert!(matches!(
        BulkString::decode(&mut buffer(b"$-1\r\n")).unwrap_err(),
        RespError::InvalidFrameType(_)
    ));
    assert!(matches!(
        BulkString::decode(&mut buffer(b"+OK\r\n")).unwrap_err(),
        RespError::InvalidFrameType(_)
    ));
    assert!(matches!(
        RespNullBulkString::decode(&mut buffer(b"$3\r\nabc\r\n")).unwrap_err(),
        RespError::InvalidFrameType(_)
    ));
    assert_eq!(
        BulkString::decode(&mut buffer(b"$3\r\nab")).unwrap_err(),
        RespError::NotComplete
    );
    assert_eq!(
        BulkString::decode(&mut buffer(b"$3")).unwrap_err(),
        RespError::NotComplete
    );
}

#[test]
fn test_bulk_string_may_hold_line_breaks() {
    let mut buf = buffer(b"$4\r\na\r\nb\r\n");
    assert_eq!(
        BulkString::decode(&mut buf).unwrap(),
        BulkString(b"a\r\nb".to_vec())
    );
    assert!(buf.is_empty());
}

#[test]
fn test_array_decode() {
    let mut buf = buffer(b"*2\r\n:+1234\r\n#t\r\n");
    let frame = RespFrame::decode(&mut buf).unwrap();
    assert_eq!(
        frame,
        RespFrame::Array(RespArray(vec![1234.into(), true.into()]))
    );
    assert!(buf.is_empty());

    let mut buf = buffer(b"*3\r\n$3\r\nset\r\n$5\r\nhello\r\n$5\r\nworld\r\n+next\r\n");
    let array = RespArray::decode(&mut buf).unwrap();
    assert_eq!(
        array,
        RespArray(vec![
            BulkString("set".into()).into(),
            BulkString("hello".into()).into(),
            BulkString("world".into()).into(),
        ])
    );
    assert_eq!(&buf[..], b"+next\r\n");
}

#[test]
fn test_nested_array_decode() {
    let mut buf = buffer(b"*2\r\n*2\r\n:+1\r\n*0\r\n$2\r\nhi\r\n");
    let frame = RespFrame::decode(&mut buf).unwrap();
    assert_eq!(
        frame,
        RespFrame::Array(RespArray(vec![
            RespArray(vec![1.into(), RespArray(Vec::new()).into()]).into(),
            BulkString("hi".into()).into(),
        ]))
    );
}

#[test]
fn test_partial_array_takes_nothing() {
    let whole: &[u8] = b"*2\r\n$3\r\nget\r\n$5\r\nhello\r\n";
    for cut in 0..whole.len() {
        let mut buf = buffer(&whole[..cut]);
        assert_eq!(
            RespFrame::decode(&mut buf).unwrap_err(),
            RespError::NotComplete
        );
        assert_eq!(&buf[..], &whole[..cut]);

        buf.extend_from_slice(&whole[cut..]);
        let frame = RespFrame::decode(&mut buf).unwrap();
        assert_eq!(
            frame,
            RespFrame::Array(RespArray(vec![
                BulkString("get".into()).into(),
                BulkString("hello".into()).into(),
            ]))
        );
        assert!(buf.is_empty());
    }
}

#[test]
fn test_array_decode_errors() {
    assert!(matches!(
        RespArray::decode(&mut buffer(b"*-1\r\n")).unwrap_err(),
        RespError::InvalidFrameType(_)
    ));
    assert_eq!(
        RespArray::decode(&mut buffer(b"*-2\r\n")).unwrap_err(),
        RespError::ParseIntError
    );
    assert!(matches!(
        RespArray::decode(&mut buffer(b"*1\r\n?\r\n")).unwrap_err(),
        RespError::InvalidFrameType(_)
    ));
    let mut buf = buffer(b"*2\r\n:+1\r\n:x\r\n");
    assert_eq!(
        RespFrame::decode(&mut buf).unwrap_err(),
        RespError::ParseIntError
    );
    assert_eq!(&buf[..], b"*2\r\n:+1\r\n:x\r\n");
}

#[test]
fn test_set_decode() {
    let mut buf = buffer(b"~2\r\n*2\r\n:+1234\r\n#t\r\n$5\r\nworld\r\n");
    let set = RespSet::decode(&mut buf).unwrap();
    assert_eq!(
        set,
        RespSet(vec![
            RespArray(vec![1234.into(), true.into()]).into(),
            BulkString("world".into()).into(),
        ])
    );
    assert_eq!(
        RespSet::decode(&mut buffer(b"~-1\r\n")).unwrap_err(),
        RespError::ParseIntError
    );
}

#[test]
fn test_map_decode() {
    let mut buf = buffer(b"%2\r\n+hello\r\n$5\r\nworld\r\n+foo\r\n,-123456.789\r\n");
    let map = RespMap::decode(&mut buf).unwrap();
    let mut expected = RespMap::new();
    expected.insert("foo".into(), double(-123456.789).into());
    expected.insert("hello".into(), BulkString("world".into()).into());
    assert_eq!(map, expected);
    assert!(buf.is_empty());
}

#[test]
fn test_map_decode_keeps_the_later_of_two_equal_keys() {
    let mut buf = buffer(b"%2\r\n+k\r\n:+1\r\n+k\r\n:+2\r\n");
    let map = RespMap::decode(&mut buf).unwrap();
    assert_eq!(map.len(), 1);
    assert_eq!(map.get("k"), Some(&RespFrame::Integer(2)));
}

#[test]
fn test_map_decode_errors() {
    assert!(matches!(
        RespMap::decode(&mut buffer(b"%1\r\n$1\r\nk\r\n:+1\r\n")).unwrap_err(),
        RespError::InvalidFrameType(_)
    ));
    assert_eq!(
        RespMap::decode(&mut buffer(b"%1\r\n+k\r\n")).unwrap_err(),
        RespError::NotComplete
    );
    assert_eq!(
        RespMap::decode(&mut buffer(b"%-1\r\n")).unwrap_err(),
        RespError::ParseIntError
    );
}

#[test]
fn test_unknown_first_byte() {
    let mut buf = buffer(b"?what\r\n");
    assert!(matches!(
        RespFrame::decode(&mut buf).unwrap_err(),
        RespError::InvalidFrameType(_)
    ));
    assert_eq!(&buf[..], b"?what\r\n");
    assert!(matches!(
        SimpleString::decode(&mut buffer(b"-err\r\n")).unwrap_err(),
        RespError::InvalidFrameType(_)
    ));
}

#[test]
fn test_empty_buffer_is_not_complete() {
    assert_eq!(
        RespFrame::decode(&mut BytesMut::new()).unwrap_err(),
        RespError::NotComplete
    );
    assert_eq!(
        SimpleString::decode(&mut BytesMut::new()).unwrap_err(),
        RespError::NotComplete
    );
}

#[test]
fn test_simple_string_with_invalid_utf8_is_replaced() {
    let mut buf = buffer(b"+a\xffb\r\n");
    let ss = SimpleString::decode(&mut buf).unwrap();
    assert_eq!(ss, SimpleString("a\u{fffd}b".into()));
}

#[test]
fn test_simple_string_keeps_a_lone_carriage_return() {
    let mut buf = buffer(b"+a\rb\r\n");
    let ss = SimpleString::decode(&mut buf).unwrap();
    assert_eq!(ss, SimpleString("a\rb".into()));
}

#[test]
fn test_expect_length() {
    assert_eq!(SimpleString::expect_length(b"+OK\r\n+more"), Ok(5));
    assert_eq!(BulkString::expect_length(b"$5\r\nhello\r\n"), Ok(11));
    assert_eq!(
        RespFrame::expect_length(b"*2\r\n:+1234\r\n#t\r\nrest"),
        Ok(16)
    );
    assert_eq!(
        RespFrame::expect_length(b"*2\r\n:+1234\r\n"),
        Err(RespError::NotComplete)
    );
    assert_eq!(
        i64::expect_length(b":x\r\n"),
        Err(RespError::ParseIntError)
    );
}

#[test]
fn test_frames_are_read_one_after_the_other() {
    let mut buf = buffer(b"+a\r\n:+2\r\n$1\r\nc\r\n_\r\n");
    assert_eq!(
        RespFrame::decode(&mut buf).unwrap(),
        RespFrame::SimpleSting(SimpleString("a".into()))
    );
    assert_eq!(RespFrame::decode(&mut buf).unwrap(), RespFrame::Integer(2));
    assert_eq!(
        RespFrame::decode(&mut buf).unwrap(),
        RespFrame::BulkString(BulkString(b"c".to_vec()))
    );
    assert_eq!(
        RespFrame::decode(&mut buf).unwrap(),
        RespFrame::Null(RespNull)
    );
    assert_eq!(
        RespFrame::decode(&mut buf).unwrap_err(),
        RespError::NotComplete
    );
}

#[test]
fn test_error_messages_name_what_was_expected() {
    assert_eq!(
        SimpleString::decode(&mut buffer(b"-x\r\n")).unwrap_err(),
        RespError::InvalidFrameType("expect: SimpleString(+)".into())
    );
    assert_eq!(
        BulkString::decode(&mut buffer(b"*1\r\n")).unwrap_err(),
        RespError::InvalidFrameType("expect: BulkString($)".into())
    );
    assert_eq!(
        bool::decode(&mut buffer(b"#maybe\r\n")).unwrap_err(),
        RespError::InvalidFrame("expect: t or f".into())
    );
    assert_eq!(
        RespNull::decode(&mut buffer(b"_null\r\n")).unwrap_err(),
        RespError::InvalidFrame("expect: no payload".into())
    );
    assert_eq!(
        RespNullArray::decode(&mut buffer(b"*0\r\n")).unwrap_err(),
        RespError::InvalidFrameType("expect: NullArray(*-1)".into())
    );
}
