use kavi::lsp::{content_length, frame_message, parse_header_line, ErrorCode, HeaderError, HeaderLine, PendingRequests};

#[test]
fn error_codes_from_numbers() {
    assert_eq!(ErrorCode::from(-32700), ErrorCode::ParseError);
    assert_eq!(ErrorCode::from(-32601), ErrorCode::MethodNotFound);
    assert_eq!(ErrorCode::from(-32802), ErrorCode::ServerCancelled);
    assert_eq!(ErrorCode::from(-32001), ErrorCode::Unknown);
    assert_eq!(ErrorCode::from(12), ErrorCode::Unknown);
    assert_eq!(ErrorCode::ServerErrorEnd.code(), -32000);
}

#[test]
fn header_lines() {
    assert_eq!(parse_header_line(&b"Content-Length: 42\r\n".to_vec()), Ok(HeaderLine::ContentLength(42)));
    assert_eq!(parse_header_line(&b"Content-Length: +7\r\n".to_vec()), Ok(HeaderLine::ContentLength(7)));
    assert_eq!(parse_header_line(&b"\r\n".to_vec()), Ok(HeaderLine::End));
    assert_eq!(
        parse_header_line(&b"Content-Type: application/json\r\n".to_vec()),
        Ok(HeaderLine::Other)
    );
    assert_eq!(parse_header_line(&b"no separator\r\n".to_vec()), Ok(HeaderLine::Other));
    assert_eq!(
        parse_header_line(&b"Content-Length: 4x\r\n".to_vec()),
        Err(HeaderError::InvalidContentLength)
    );
    assert_eq!(
        parse_header_line(&b"Content-Length: 99999999999999999999999\r\n".to_vec()),
        Err(HeaderError::InvalidContentLength)
    );
}

#[test]
fn header_block_length() {
    let lines = vec![b"Content-Length: 10\r\n".to_vec(), b"Content-Type: x\r\n".to_vec(), b"\r\n".to_vec()];
    assert_eq!(content_length(&lines), Ok(10));
    let lines = vec![b"Content-Type: x\r\n".to_vec(), b"\r\n".to_vec()];
    assert_eq!(content_length(&lines), Err(HeaderError::MissingContentLength));
}

#[test]
fn framing_prefixes_length() {
    let body = br#"{"jsonrpc":"2.0"}"#.to_vec();
    let framed = frame_message(&body);
    assert_eq!(framed, b"Content-Length: 17\r\n\r\n{\"jsonrpc\":\"2.0\"}".to_vec());
    assert_eq!(frame_message(&vec![]), b"Content-Length: 0\r\n\r\n".to_vec());
}

#[test]
fn pending_requests_match_responses_by_id() {
    let mut pending: PendingRequests<&str> = PendingRequests::new();
    assert_eq!(pending.push("initialize"), Some(0));
    assert_eq!(pending.push("shutdown"), Some(1));
    assert_eq!(pending.take(1), Some("shutdown"));
    assert_eq!(pending.take(1), None);
    assert_eq!(pending.take(7), None);
    assert_eq!(pending.len(), 1);
    assert_eq!(pending.take(0), Some("initialize"));
    assert_eq!(pending.push("next"), Some(2));
}
