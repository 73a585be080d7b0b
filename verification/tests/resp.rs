use redis_server::resp::{
    binary_extract_line, binary_extract_line_as_string, resp_parse_simple_string, resp_parser,
    resp_process_type, RESP,
};
use redis_server::resp_result::RESPError;

#[test]
fn test_binary_extract_line_empty_buffer() {
    let buffer = "".as_bytes();
    let mut index: usize = 0;

    match binary_extract_line(buffer, &mut index) {
        Err(RESPError::OutOfBounds(index)) => {
            assert_eq!(index, 0)
        }
        _ => panic!("Expected OutOfBounds error"),
    }
}

#[test]
fn test_binary_extract_line_no_separator() {
    let buffer = "OK".as_bytes();
    let mut index: usize = 0;

    match binary_extract_line(buffer, &mut index) {
        Err(RESPError::OutOfBounds(index)) => {
            assert_eq!(index, 2)
        }
        _ => panic!("Expected OutOfBounds error"),
    }
}

#[test]
fn test_binary_extract_line_oob() {
    let buffer = "OK\r\n".as_bytes();
    let mut index: usize = 5;

    match binary_extract_line(buffer, &mut index) {
        Err(RESPError::OutOfBounds(index)) => {
            assert_eq!(index, 5)
        }
        _ => panic!("Expected OutOfBounds error"),
    }
}

#[test]
fn test_binary_extract_line() {
    let buffer = "OK\r\n".as_bytes();
    let mut index: usize = 0;
    let output = binary_extract_line(buffer, &mut index).unwrap();
    assert_eq!(output, "OK".as_bytes());
    assert_eq!(index, 4);
}

#[test]
fn test_binary_extract_line_longer_string() {
    let buffer = "ECHO\r\n".as_bytes();
    let mut index: usize = 0;

    let output = binary_extract_line(buffer, &mut index).unwrap();

    assert_eq!(output, "ECHO".as_bytes());
    assert_eq!(index, 6);
}

#[test]
fn test_binary_extract_line_incomplete_string_r() {
    let buffer = "OK\r".as_bytes();
    let mut index: usize = 0;
    match binary_extract_line(buffer, &mut index) {
        Err(RESPError::OutOfBounds(index)) => {
            assert_eq!(index, 3)
        }
        _ => panic!("Expected OutOfBounds error"),
    }
}

#[test]
fn test_binary_extract_line_incomplete_string_n() {
    let buffer = "OK\n".as_bytes();
    let mut index: usize = 0;
    match binary_extract_line(buffer, &mut index) {
        Err(RESPError::OutOfBounds(index)) => {
            assert_eq!(index, 3)
        }
        _ => panic!("Expected OutOfBounds error"),
    }
}

#[test]
fn test_binary_extract_line_to_string() {
    let buffer = "OK\r\n".as_bytes();
    let mut index: usize = 0;
    let output = binary_extract_line(buffer, &mut index).unwrap();
    let output_str = String::from_utf8(output).unwrap();
    assert_eq!(output_str, "OK");
    assert_eq!(index, 4);
}

#[test]
fn test_binary_extract_line_to_string_as_string() {
    let buffer = "OK\r\n".as_bytes();
    let mut index: usize = 0;
    let output = binary_extract_line_as_string(buffer, &mut index).unwrap();
    assert_eq!(output, "OK");
    assert_eq!(index, 4);
}

#[test]
fn test_binary_extract_line_to_string_invalid_utf8() {
    let buffer = [0xff, 0xfe, 0xfd, b'\r', b'\n'];
    let mut index: usize = 0;
    match binary_extract_line_as_string(&buffer, &mut index) {
        Err(RESPError::FromUtf8) => {}
        _ => panic!("Expected FromUtf8 error"),
    }
}

#[test]
fn test_resp_type_parsing() {
    let buffer = b"+OK\r\n";
    let mut index: usize = 0;
    resp_process_type('+', buffer, &mut index).unwrap();
    assert_eq!(index, 1);
}

#[test]
fn test_resp_type_parsing_wrong_type() {
    let buffer = b"-Error\r\n";
    let mut index: usize = 0;
    match resp_process_type('+', buffer, &mut index) {
        Err(RESPError::WrongType) => {}
        _ => panic!("Expected WrongType error"),
    }
}

#[test]
fn test_resp_parse_simple_string() {
    let buffer = b"+OK\r\n";
    let mut index: usize = 0;

    let s = resp_parse_simple_string(buffer, &mut index).unwrap();
    assert_eq!(s, RESP::SimpleString(String::from("OK")));
    assert_eq!(index, 5);
}

#[test]
fn test_parser_resp_to_simple_string() {
    let buffer = b"+OK\r\n";
    let mut index: usize = 0;

    let s = resp_parser(buffer, &mut index).unwrap();
    assert_eq!(s, RESP::SimpleString(String::from("OK")));
    assert_eq!(index, 5);
}

#[test]
fn test_parser_resp_unknown_type() {
    let buffer = b"-Error\r\n";
    let mut index: usize = 0;

    let result = resp_parser(buffer, &mut index);
    assert!(matches!(result, Err(RESPError::Unknown)));
}
