use bytes::BytesMut;
use simple_redis::resp::{
    BulkString, RespArray, RespDecode, RespDouble, RespEncode, RespError, RespFrame, RespMap,
    RespNull, RespNullArray, RespNullBulkString, RespSet, SimpleError, SimpleString,
};

fn double(value: f64) -> RespDouble {
    RespDouble::parse(format!("{:e}", value).as_bytes()).unwrap()
}

fn samples() -> Vec<RespFrame> {
    let mut map = RespMap::new();
    map.insert("hello".into(), BulkString("world".into()).into());
    map.insert("foo".into(), double(-123456.789).into());
    map.insert("".into(), RespNull.into());
    map.insert("zeta".into(), RespArray(vec![1.into(), 2.into()]).into());
    let mut inner = RespMap::new();
    inner.insert("k".into(), true.into());
    map.insert("nested".into(), inner.into());
    vec![
        SimpleString("OK".into()).into(),
        SimpleString("".into()).into(),
        SimpleString("h\u{e9}llo \u{4e16}\u{754c}".into()).into(),
        SimpleError("ERR unknown command".into()).into(),
        0.into(),
        123.into(),
        (-123).into(),
        i64::MAX.into(),
        i64::MIN.into(),
        BulkString(Vec::new()).into(),
        BulkString(b"hello".to_vec()).into(),
        BulkString(b"with\r\nbreaks\r\n".to_vec()).into(),
        BulkString(vec![0, 255, 13, 10, 36]).into(),
        RespNullBulkString.into(),
        RespNullArray.into(),
        RespNull.into(),
        true.into(),
        false.into(),
        double(0.0).into(),
        double(-0.0).into(),
        double(1.0).into(),
        double(123.456).into(),
        double(-123.456).into(),
        double(1.23456e8).into(),
        double(-1.23456e-9).into(),
        double(1e-8).into(),
        double(99999999.0).into(),
        double(12300000.0).into(),
        double(0.000123).into(),
        double(f64::MAX).into(),
        double(f64::MIN_POSITIVE).into(),
        RespArray(Vec::new()).into(),
        RespArray(vec![1234.into(), true.into()]).into(),
        RespArray(vec![
            RespArray(vec![RespArray(Vec::new()).into()]).into(),
            RespNullArray.into(),
            BulkString("x".into()).into(),
        ])
        .into(),
        RespSet(Vec::new()).into(),
        RespSet(vec![
            RespArray(vec![1234.into(), true.into()]).into(),
            BulkString("world".to_string().into()).into(),
        ])
        .into(),
        RespMap::new().into(),
        map.into(),
    ]
}

#[test]
fn test_round_trip() {
    for frame in samples() {
        let bytes = frame.clone().encode();
        let mut buf = BytesMut::new();
        buf.extend_from_slice(&bytes);
        let back = RespFrame::decode(&mut buf).unwrap();
        assert_eq!(back, frame);
        assert!(buf.is_empty());
    }
}

#[test]
fn test_round_trip_leaves_what_follows() {
    for frame in samples() {
        let bytes = frame.clone().encode();
        let mut buf = BytesMut::new();
        buf.extend_from_slice(&bytes);
        buf.extend_from_slice(b"+next\r\n");
        let back = RespFrame::decode(&mut buf).unwrap();
        assert_eq!(back, frame);
        assert_eq!(&buf[..], b"+next\r\n");
    }
}

#[test]
fn test_every_proper_beginning_is_not_complete() {
    for frame in samples() {
        let bytes = frame.clone().encode();
        for cut in 0..bytes.len() {
            let mut buf = BytesMut::new();
            buf.extend_from_slice(&bytes[..cut]);
            assert_eq!(
                RespFrame::decode(&mut buf).unwrap_err(),
                RespError::NotComplete
            );
            assert_eq!(&buf[..], &bytes[..cut]);
        }
    }
}

#[test]
fn test_nested_compound_round_trip() {
    let mut buf = BytesMut::new();
    buf.extend_from_slice(b"*2\r\n:+1234\r\n#t\r\n");
    let frame = RespFrame::decode(&mut buf).unwrap();
    assert_eq!(
        frame,
        RespFrame::Array(RespArray(vec![
            RespFrame::Integer(1234),
            RespFrame::Boolean(true)
        ]))
    );
    assert_eq!(frame.clone().encode(), b"*2\r\n:+1234\r\n#t\r\n");

    let set: RespFrame = RespSet(vec![frame, BulkString("world".into()).into()]).into();
    assert_eq!(
        set.encode(),
        b"~2\r\n*2\r\n:+1234\r\n#t\r\n$5\r\nworld\r\n"
    );
}

#[test]
fn test_clone_is_equal() {
    for frame in samples() {
        assert_eq!(frame.clone(), frame);
    }
}

#[test]
fn test_decoded_text_encodes_to_the_same_bytes() {
    let lines: [&[u8]; 4] = [b"+OK\r\n", b"-ERR x\r\n", b":+7\r\n", b",+1.5e10\r\n"];
    for bytes in lines {
        let mut buf = BytesMut::new();
        buf.extend_from_slice(bytes);
        let frame = RespFrame::decode(&mut buf).unwrap();
        assert_eq!(frame.encode(), bytes);
    }
}
