use ferrocache::protocol::encoder::encode_frame;
use ferrocache::protocol::number::{parse_i64, parse_u64, parse_usize};
use ferrocache::protocol::parser::{decode_frame, Decoded, ProtocolError};
use ferrocache::protocol::Frame;

fn decode_whole(input: &[u8]) -> Result<(Frame, usize), ProtocolError> {
    match decode_frame(input, true)? {
        Decoded::Frame(frame, used) => Ok((frame, used)),
        Decoded::NeedMore => panic!("need more at the end of the stream"),
        Decoded::End => panic!("end of stream"),
    }
}

#[test]
fn encodes_every_kind_of_frame() {
    assert_eq!(encode_frame(&Frame::Simple("OK".to_string())), b"+OK\r\n".to_vec());
    assert_eq!(encode_frame(&Frame::Error("ERR x".to_string())), b"-ERR x\r\n".to_vec());
    assert_eq!(encode_frame(&Frame::Integer(42)), b":42\r\n".to_vec());
    assert_eq!(encode_frame(&Frame::Integer(-7)), b":-7\r\n".to_vec());
    assert_eq!(
        encode_frame(&Frame::Integer(i64::MIN)),
        b":-9223372036854775808\r\n".to_vec()
    );
    assert_eq!(encode_frame(&Frame::Bulk(b"a\r\nb".to_vec())), b"$4\r\na\r\nb\r\n".to_vec());
    assert_eq!(encode_frame(&Frame::Null), b"$-1\r\n".to_vec());
    assert_eq!(
        encode_frame(&Frame::Array(vec![Frame::Integer(1), Frame::Null])),
        b"*2\r\n:1\r\n$-1\r\n".to_vec()
    );
    assert_eq!(encode_frame(&Frame::Array(vec![])), b"*0\r\n".to_vec());
}

#[test]
fn reads_back_what_was_written() {
    let frame = Frame::Array(vec![
        Frame::Simple("héllo".to_string()),
        Frame::Integer(-12),
        Frame::Bulk(b"bin\r\n\x00ary".to_vec()),
        Frame::Null,
        Frame::Array(vec![Frame::Bulk(Vec::new())]),
    ]);
    let mut bytes = encode_frame(&frame);
    let len = bytes.len();
    bytes.extend_from_slice(b"PING\r\n");

    assert_eq!(decode_whole(&bytes).unwrap(), (frame, len));
}

#[test]
fn reads_simple_integer_and_null() {
    assert_eq!(decode_whole(b"+PONG\r\n").unwrap(), (Frame::Simple("PONG".to_string()), 7));
    assert_eq!(decode_whole(b":+15\r\n").unwrap(), (Frame::Integer(15), 6));
    assert_eq!(decode_whole(b"$-1\r\n").unwrap(), (Frame::Null, 5));
    assert_eq!(decode_whole(b"+last").unwrap(), (Frame::Simple("last".to_string()), 5));
}

#[test]
fn empty_line_is_an_error_frame() {
    assert_eq!(
        decode_whole(b"\r\n").unwrap(),
        (Frame::Error("ERR empty request".to_string()), 2)
    );
}

#[test]
fn inline_command_splits_on_ascii_whitespace() {
    assert_eq!(
        decode_whole(b"  SET\tkey \x0cvalue  \n").unwrap(),
        (
            Frame::Array(vec![
                Frame::Bulk(b"SET".to_vec()),
                Frame::Bulk(b"key".to_vec()),
                Frame::Bulk(b"value".to_vec()),
            ]),
            19
        )
    );
}

#[test]
fn partial_frames_need_more_until_the_stream_ends() {
    let whole = b"*2\r\n$4\r\nECHO\r\n$5\r\nhello\r\n";
    for cut in 0..whole.len() {
        assert!(matches!(decode_frame(&whole[..cut], false), Ok(Decoded::NeedMore)));
    }
    assert!(matches!(decode_frame(&whole[..], false), Ok(Decoded::Frame(_, 25))));
    assert!(matches!(decode_frame(b"", true), Ok(Decoded::End)));
}

#[test]
fn reports_each_protocol_error() {
    assert_eq!(decode_whole(b":abc\r\n").unwrap_err(), ProtocolError::InvalidInteger);
    assert_eq!(decode_whole(b":\xff\r\n").unwrap_err(), ProtocolError::InvalidUtf8);
    assert_eq!(decode_whole(b"+\xc3\r\n").unwrap_err(), ProtocolError::InvalidUtf8);
    assert_eq!(decode_whole(b"*-1\r\n").unwrap_err(), ProtocolError::InvalidInteger);
    assert_eq!(decode_whole(b"$-5\r\n").unwrap_err(), ProtocolError::NegativeBulkLength);
    assert_eq!(decode_whole(b"$3\r\nabcXY").unwrap_err(), ProtocolError::MissingCrlf);
    assert_eq!(decode_whole(b"$3\r\nab").unwrap_err(), ProtocolError::UnexpectedEof);
    assert_eq!(decode_whole(b"*2\r\n$1\r\na\r\n").unwrap_err(), ProtocolError::UnexpectedEof);
}

#[test]
fn parses_numbers_as_std_does() {
    assert_eq!(parse_i64(b"+5"), Some(5));
    assert_eq!(parse_i64(b"-0"), Some(0));
    assert_eq!(parse_i64(b"007"), Some(7));
    assert_eq!(parse_i64(b"-9223372036854775808"), Some(i64::MIN));
    assert_eq!(parse_i64(b"9223372036854775807"), Some(i64::MAX));
    assert_eq!(parse_i64(b"9223372036854775808"), None);
    assert_eq!(parse_i64(b"-"), None);
    assert_eq!(parse_i64(b""), None);
    assert_eq!(parse_i64(b"1 "), None);
    assert_eq!(parse_usize(b"-1"), None);
    assert_eq!(parse_usize(b"+3"), Some(3));
    assert_eq!(parse_u64(b"18446744073709551615"), Some(u64::MAX));
    assert_eq!(parse_u64(b"18446744073709551616"), None);
}
