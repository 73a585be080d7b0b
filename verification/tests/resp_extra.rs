use redis_server::resp::{parse_i32, binary_extract_line, binary_extract_line_as_string, bytes_to_resp, parser_router, resp_parser, resp_process_type, RESP};
use redis_server::resp_result::RESPError;

#[test]
fn simple_string_wire_form() {
    let value = RESP::SimpleString(String::from("PONG"));
    assert_eq!(value.to_string(), "+PONG\r\n");
}

#[test]
fn simple_string_roundtrip() {
    let value = RESP::SimpleString(String::from("héllo wörld\r"));
    let wire = value.to_string();
    let mut index: usize = 0;
    let parsed = resp_parser(wire.as_bytes(), &mut index).unwrap();
    assert_eq!(parsed, value);
    assert_eq!(index, wire.len());
}

#[test]
fn extract_line_from_middle() {
    let buffer = b"+OK\r\n+NEXT\r\n";
    let mut index: usize = 5;
    let line = binary_extract_line(buffer, &mut index).unwrap();
    assert_eq!(line, b"+NEXT".to_vec());
    assert_eq!(index, 12);
}

#[test]
fn extract_line_first_separator_wins() {
    let buffer = b"a\r\r\nb\r\n";
    let mut index: usize = 0;
    let line = binary_extract_line(buffer, &mut index).unwrap();
    assert_eq!(line, b"a\r".to_vec());
    assert_eq!(index, 4);
}

#[test]
fn extract_line_empty_line() {
    let buffer = b"\r\n";
    let mut index: usize = 0;
    let line = binary_extract_line(buffer, &mut index).unwrap();
    assert_eq!(line, Vec::<u8>::new());
    assert_eq!(index, 2);
}

#[test]
fn extract_line_at_end_of_buffer() {
    let buffer = b"OK\r\n";
    let mut index: usize = 4;
    assert_eq!(binary_extract_line(buffer, &mut index), Err(RESPError::OutOfBounds(4)));
    assert_eq!(index, 4);
}

#[test]
fn extract_line_as_string_multibyte() {
    let buffer = "ünïcode\r\n".as_bytes();
    let mut index: usize = 0;
    let line = binary_extract_line_as_string(buffer, &mut index).unwrap();
    assert_eq!(line, "ünïcode");
    assert_eq!(index, buffer.len());
}

#[test]
fn extract_line_as_string_invalid_utf8_moves_index() {
    let buffer = [b'a', 0xc3, b'\r', b'\n', b'z'];
    let mut index: usize = 0;
    assert_eq!(binary_extract_line_as_string(&buffer, &mut index), Err(RESPError::FromUtf8));
    assert_eq!(index, 4);
}

#[test]
fn process_type_keeps_index_on_wrong_type() {
    let buffer = b"-Error\r\n";
    let mut index: usize = 0;
    assert_eq!(resp_process_type('+', buffer, &mut index), Err(RESPError::WrongType));
    assert_eq!(index, 0);
}

#[test]
fn router_knows_simple_strings_only() {
    let mut index: usize = 0;
    assert!(parser_router(b"+OK\r\n", &mut index).is_some());
    assert!(parser_router(b"$2\r\nOK\r\n", &mut index).is_none());
    assert!(parser_router(b"*1\r\n", &mut index).is_none());
    assert!(parser_router(b":1\r\n", &mut index).is_none());
    assert!(parser_router(b"", &mut index).is_none());
    assert_eq!(index, 0);
}

#[test]
fn parser_unknown_on_empty_buffer() {
    let mut index: usize = 0;
    assert_eq!(resp_parser(b"", &mut index), Err(RESPError::Unknown));
    assert_eq!(index, 0);
}

#[test]
fn parser_incomplete_simple_string() {
    let mut index: usize = 0;
    assert_eq!(resp_parser(b"+OK", &mut index), Err(RESPError::OutOfBounds(3)));
    assert_eq!(index, 3);
}

#[test]
fn parser_simple_string_without_text() {
    let mut index: usize = 0;
    assert_eq!(resp_parser(b"+", &mut index), Err(RESPError::OutOfBounds(1)));
    assert_eq!(index, 1);
}

#[test]
fn resp_error_messages() {
    assert_eq!(RESPError::FromUtf8.to_string(), "Failed to convert bytes to UTF-8 string");
    assert_eq!(RESPError::OutOfBounds(5).to_string(), "Index 5 is out of bounds");
    assert_eq!(RESPError::OutOfBounds(1024).to_string(), "Index 1024 is out of bounds");
    assert_eq!(RESPError::WrongType.to_string(), "Unexpected type byte");
    assert_eq!(RESPError::Unknown.to_string(), "Unknown format for RESP string");
    assert_eq!(RESPError::IncorrectLength(-12).to_string(), "Incorrect length -12");
    assert_eq!(RESPError::IncorrectLength(0).to_string(), "Incorrect length 0");
    assert_eq!(
        RESPError::IncorrectLength(i32::MIN).to_string(),
        format!("Incorrect length {}", i32::MIN)
    );
    assert_eq!(RESPError::ParseInt.to_string(), "Cannot parse string into integer");
}

#[test]
fn parse_then_serialize_gives_consumed_bytes() {
    let buffer = "xx+héllo\r\n+next\r\n".as_bytes();
    let mut index: usize = 2;
    let value = resp_parser(buffer, &mut index).unwrap();
    assert_eq!(value.to_string().as_bytes(), &buffer[2..index]);
}

fn bulk(s: &str) -> RESP {
    RESP::BulkString(String::from(s))
}

#[test]
fn wire_forms() {
    assert_eq!(bulk("héllo").to_string(), "$6\r\nhéllo\r\n");
    assert_eq!(bulk("").to_string(), "$0\r\n\r\n");
    assert_eq!(RESP::Null.to_string(), "$-1\r\n");
    assert_eq!(RESP::RDBPrefix(88).to_string(), "$88\r\n");
    assert_eq!(
        RESP::Array(vec![bulk("ECHO"), bulk("hey")]).to_string(),
        "*2\r\n$4\r\nECHO\r\n$3\r\nhey\r\n"
    );
    assert_eq!(RESP::Array(vec![]).to_string(), "*0\r\n");
    assert_eq!(
        RESP::Array(vec![RESP::Array(vec![RESP::Null]), RESP::SimpleString(String::from("x"))]).to_string(),
        "*2\r\n*1\r\n$-1\r\n+x\r\n"
    );
}

#[test]
fn parse_bulk_strings_and_arrays() {
    let wire = b"*2\r\n$4\r\nECHO\r\n$3\r\nhey\r\n";
    let mut index: usize = 0;
    let value = bytes_to_resp(wire, &mut index).unwrap();
    assert_eq!(value, RESP::Array(vec![bulk("ECHO"), bulk("hey")]));
    assert_eq!(index, wire.len());

    let mut index: usize = 0;
    assert_eq!(bytes_to_resp(b"$-1\r\n", &mut index), Ok(RESP::Null));
    assert_eq!(index, 5);

    let mut index: usize = 0;
    assert_eq!(bytes_to_resp(b"$4\r\na\r\nb\r\n", &mut index), Ok(bulk("a\r\nb")));
    assert_eq!(index, 10);

    let mut index: usize = 0;
    assert_eq!(bytes_to_resp(b"*0\r\n", &mut index), Ok(RESP::Array(vec![])));
}

#[test]
fn parse_errors_of_bulk_strings_and_arrays() {
    let mut index: usize = 0;
    assert_eq!(bytes_to_resp(b"$x\r\nab\r\n", &mut index), Err(RESPError::ParseInt));
    assert_eq!(index, 4);
    let mut index: usize = 0;
    assert_eq!(bytes_to_resp(b"$-2\r\n", &mut index), Err(RESPError::IncorrectLength(-2)));
    let mut index: usize = 0;
    assert_eq!(bytes_to_resp(b"$5\r\nab\r\n", &mut index), Err(RESPError::OutOfBounds(8)));
    assert_eq!(index, 8);
    let mut index: usize = 0;
    assert_eq!(bytes_to_resp(b"$2\r\nabc\r\n", &mut index), Err(RESPError::IncorrectLength(2)));
    let mut index: usize = 0;
    assert_eq!(bytes_to_resp(b"$2\r\n\xff\xfe\r\n", &mut index), Err(RESPError::FromUtf8));
    let mut index: usize = 0;
    assert_eq!(bytes_to_resp(b"*2\r\n$1\r\na\r\n", &mut index), Err(RESPError::Unknown));
    assert_eq!(index, 11);
    let mut index: usize = 0;
    assert_eq!(bytes_to_resp(b"*2\r\n$1\r\na\r\n-x\r\n", &mut index), Err(RESPError::Unknown));
}

#[test]
fn nested_array_roundtrip() {
    let value = RESP::Array(vec![
        bulk("SET"),
        RESP::Array(vec![RESP::SimpleString(String::from("ok")), RESP::Null]),
        bulk("ü"),
    ]);
    let wire = value.to_string();
    let mut index: usize = 0;
    assert_eq!(bytes_to_resp(wire.as_bytes(), &mut index), Ok(value));
    assert_eq!(index, wire.len());
}

#[test]
fn i32_parsing_agrees_with_std() {
    let cases = [
        "", "0", "-0", "+0", "-", "+", "12", "-12", "2147483647", "2147483648", "-2147483648",
        "-2147483649", "99999999999", "1a", " 1", "--1", "+-1", "007",
    ];
    for case in cases {
        assert_eq!(parse_i32(case.as_bytes()), case.parse::<i32>().ok(), "case {:?}", case);
    }
}

#[test]
fn roundtrip_with_crlf_in_bulk_string_and_bytes_after() {
    let value = RESP::Array(vec![bulk("a\r\nb"), RESP::Array(vec![]), RESP::Null]);
    let wire = value.to_string();
    assert_eq!(wire, "*3\r\n$4\r\na\r\nb\r\n*0\r\n$-1\r\n");
    let mut bytes = b"xx".to_vec();
    bytes.extend_from_slice(wire.as_bytes());
    bytes.extend_from_slice(b"+more\r\n");
    let mut index: usize = 2;
    assert_eq!(bytes_to_resp(&bytes, &mut index), Ok(value));
    assert_eq!(index, 2 + wire.len());
}

#[test]
fn resp_parser_reads_simple_strings_only() {
    let mut index: usize = 0;
    assert_eq!(resp_parser(b"*0\r\n", &mut index), Err(RESPError::Unknown));
    assert_eq!(index, 0);
    assert_eq!(resp_parser(b"$2\r\nOK\r\n", &mut index), Err(RESPError::Unknown));
    assert_eq!(index, 0);
    let mut index: usize = 7;
    assert_eq!(resp_parser(b"+OK\r\n", &mut index), Err(RESPError::Unknown));
    assert_eq!(index, 7);
    let mut index: usize = 0;
    assert_eq!(bytes_to_resp(b"*0\r\n", &mut index), Ok(RESP::Array(vec![])));
    assert_eq!(index, 4);
}

#[test]
fn conversions_from_std_errors() {
    let utf8 = String::from_utf8(vec![0xffu8]).unwrap_err();
    assert_eq!(RESPError::from(utf8), RESPError::FromUtf8);
    let int = "x".parse::<i32>().unwrap_err();
    assert_eq!(RESPError::from(int), RESPError::ParseInt);
}
