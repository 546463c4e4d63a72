use netom::cli::http::{
    head_is_complete, parse_status_line, BodyError, Ending, HeadError, Piece, Response,
};

fn parse(raw: &str) -> Response {
    Response::read(raw.as_bytes()).expect("response should parse")
}

#[test]
fn parses_status_lines() {
    assert_eq!(parse_status_line("HTTP/1.1 200 OK\r\n"), Some(200));
    assert_eq!(parse_status_line("HTTP/1.0 503 \r\n"), Some(503));
    assert_eq!(parse_status_line("garbage"), None);
    assert_eq!(parse_status_line(""), None);
}

#[test]
fn reads_a_content_length_body() {
    let mut r = parse(
        "HTTP/1.1 200 OK\r\n\
         Content-Type: application/json\r\n\
         Content-Length: 13\r\n\
         \r\n\
         {\"data\":null}",
    );
    assert_eq!(r.status, 200);
    assert_eq!(r.content_type, "application/json");
    assert_eq!(r.body_string().unwrap(), "{\"data\":null}");
    assert!(!r.truncated());
}

#[test]
fn header_names_are_case_insensitive() {
    let mut r = parse(
        "HTTP/1.1 200 OK\r\n\
         CONTENT-TYPE: application/x-ndjson\r\n\
         content-length: 2\r\n\
         \r\n\
         hi",
    );
    assert_eq!(r.content_type, "application/x-ndjson");
    assert_eq!(r.body_string().unwrap(), "hi");
}

#[test]
fn reads_a_chunked_body_across_several_chunks() {
    let mut r = parse(
        "HTTP/1.1 200 OK\r\n\
         Transfer-Encoding: chunked\r\n\
         \r\n\
         5\r\nhello\r\n\
         6\r\n world\r\n\
         0\r\n\r\n",
    );
    assert_eq!(r.body_string().unwrap(), "hello world");
    assert!(!r.truncated());
}

#[test]
fn honours_chunk_extensions() {
    let mut r = parse(
        "HTTP/1.1 200 OK\r\n\
         Transfer-Encoding: chunked\r\n\
         \r\n\
         5;ext=value\r\nhello\r\n\
         0\r\n\r\n",
    );
    assert_eq!(r.body_string().unwrap(), "hello");
    assert!(!r.truncated());
}

#[test]
fn detects_a_dump_that_ended_without_its_terminal_chunk() {
    let mut r = parse(
        "HTTP/1.1 200 OK\r\n\
         Transfer-Encoding: chunked\r\n\
         \r\n\
         5\r\nhello\r\n",
    );
    assert_eq!(r.body_string().unwrap(), "hello");
    assert!(r.truncated(), "premature EOF must be reported");
}

#[test]
fn detects_a_chunk_cut_off_mid_body() {
    let mut r = parse(
        "HTTP/1.1 200 OK\r\n\
         Transfer-Encoding: chunked\r\n\
         \r\n\
         20\r\nonly-a-few-bytes",
    );
    let _ = r.body_string().unwrap();
    assert!(r.truncated());
}

#[test]
fn detects_a_short_content_length_body() {
    let mut r = parse(
        "HTTP/1.1 200 OK\r\n\
         Content-Length: 100\r\n\
         \r\n\
         short",
    );
    assert_eq!(r.body_string().unwrap(), "short");
    assert!(r.truncated());
}

#[test]
fn transfer_encoding_wins_over_content_length() {
    let mut r = parse(
        "HTTP/1.1 200 OK\r\n\
         Content-Length: 999\r\n\
         Transfer-Encoding: chunked\r\n\
         \r\n\
         2\r\nok\r\n\
         0\r\n\r\n",
    );
    assert_eq!(r.body_string().unwrap(), "ok");
    assert!(!r.truncated());
}

#[test]
fn reads_bodies_that_end_at_eof() {
    let mut r = parse(
        "HTTP/1.1 200 OK\r\n\
         \r\n\
         body without framing",
    );
    assert_eq!(r.body_string().unwrap(), "body without framing");
}

#[test]
fn surfaces_error_status_with_its_body() {
    let mut r = parse(
        "HTTP/1.1 503 Service Unavailable\r\n\
         Content-Length: 39\r\n\
         \r\n\
         {\"data\":null,\"error\":\"store unavail\"}\r\n",
    );
    assert_eq!(r.status, 503);
    assert!(r.body_string().unwrap().contains("store unavail"));
}

#[test]
fn a_head_is_complete_at_its_empty_line() {
    assert!(!head_is_complete(b"HTTP/1.1 200 OK\r\nA: b\r\n"));
    assert!(head_is_complete(b"HTTP/1.1 200 OK\r\nA: b\r\n\r\n"));
}

#[test]
fn refuses_what_is_no_response() {
    assert!(matches!(Response::read(b"garbage\r\n\r\n"), Err(HeadError::Status(_))));
    let err = Response::read(b"gar\"bage \r\n\r\n").err().unwrap();
    assert_eq!(err.message(), "malformed status line: \"gar\\\"bage\"");
    let err = Response::read(b"HTTP/1.1 200 OK\r\nA: b\r\n").err().unwrap();
    assert_eq!(err.message(), "connection closed in headers");
    let err = Response::read(b"HTTP/1.1 200 OK\r\nA: \xff\r\n\r\n").err().unwrap();
    assert_eq!(err.message(), "stream did not contain valid UTF-8");
}

#[test]
fn refuses_a_chunk_size_that_is_none() {
    let mut r = parse(
        "HTTP/1.1 200 OK\r\nTransfer-Encoding: chunked\r\n\r\n2\r\nok\r\nz\"z;x=1\r\nhello\r\n",
    );
    assert!(matches!(r.body_string(), Err(BodyError::ChunkSize)));
    assert_eq!(r.message(BodyError::ChunkSize), "malformed chunk size: \"z\\\"z\"");
    assert_eq!(r.message(BodyError::NotText), "stream did not contain valid UTF-8");
}

#[test]
fn pieces_arrive_as_they_come_in() {
    let mut r = parse("HTTP/1.1 200 OK\r\nTransfer-Encoding: chunked\r\n\r\n");
    assert!(matches!(r.next_piece(false), Piece::More));
    r.feed(b"5\r\nhel");
    let mut seen: Vec<u8> = Vec::new();
    loop {
        match r.next_piece(false) {
            Piece::Body(part) => seen.extend(part),
            _ => break,
        }
    }
    assert_eq!(seen, b"hel");
    r.feed(b"lo\r\n0\r\n\r\n");
    loop {
        match r.next_piece(true) {
            Piece::Body(part) => seen.extend(part),
            _ => break,
        }
    }
    assert_eq!(seen, b"hello");
    assert!(!r.truncated());
}

#[test]
fn a_body_ends_where_its_framing_ends_it() {
    // Nothing has to come in behind, and the connection need not end.
    let mut r = Response::read(b"HTTP/1.1 200 OK\r\nContent-Length: 2\r\n\r\nhi").unwrap();
    assert!(matches!(r.next_piece(false), Piece::Body(part) if part == b"hi"));
    assert!(matches!(r.next_piece(false), Piece::End(Ending::Complete)));
    let head = b"HTTP/1.1 200 OK\r\nTransfer-Encoding: chunked\r\n\r\n";
    let mut r = Response::read(head).unwrap();
    assert!(matches!(r.next_piece(false), Piece::More));
    r.feed(b"2\r\nh");
    assert!(matches!(r.next_piece(false), Piece::Body(part) if part == b"h"));
    assert!(matches!(r.next_piece(false), Piece::More));
    r.feed(b"i\r\n0\r\n");
    assert!(matches!(r.next_piece(false), Piece::Body(part) if part == b"i"));
    assert!(matches!(r.next_piece(false), Piece::End(Ending::Complete)));
}

#[test]
fn a_complete_head_does_not_change() {
    let head = b"HTTP/1.1 200 OK\nContent-Type: a\n\n".to_vec();
    assert!(head_is_complete(&head));
    assert!(!head_is_complete(&head[..head.len() - 1]));
    let mut longer = head.clone();
    longer.extend_from_slice(b"Content-Type: b\n\n");
    let (a, b) = (Response::read(&head).unwrap(), Response::read(&longer).unwrap());
    assert_eq!((a.status, a.content_type.as_str()), (200, "a"));
    assert_eq!((b.status, b.content_type.as_str()), (200, "a"));
    assert_eq!(b.unread, b"Content-Type: b\n\n");
}
