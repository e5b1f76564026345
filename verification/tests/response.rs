use http::{Response, Serializer, StatusCode};

const NOW: u64 = 784111777;

fn wire(response: Response) -> Vec<u8> {
    let mut buf = Vec::new();
    Serializer.serialize(response, NOW, &mut buf);
    buf
}

fn text(response: Response) -> String {
    String::from_utf8(wire(response)).unwrap()
}

fn contains(haystack: &[u8], needle: &[u8]) -> bool {
    haystack.windows(needle.len()).any(|w| w == needle)
}

#[test]
fn a_new_response_is_200_without_headers_or_body() {
    assert_eq!(
        text(Response::new()),
        "HTTP/1.1 200 OK\r\n\
         Server: xx0\r\n\
         Content-Length: 0\r\n\
         Date: Sun, 06 Nov 1994 08:49:37 GMT\r\n\
         \r\n"
    );
}

#[test]
fn round_trip_of_a_small_response() {
    let mut response = Response::new();
    response.status_code(StatusCode::OK).header("X", "y").body("hi");
    let bytes = wire(response);
    assert!(bytes.starts_with(b"HTTP/1.1 200 OK\r\n"));
    assert!(contains(&bytes, b"Content-Length: 2\r\n"));
    assert!(contains(&bytes, b"X: y\r\n"));
    assert!(bytes.ends_with(b"\r\n\r\nhi"));
}

#[test]
fn the_wire_format_byte_for_byte() {
    let mut response = Response::new();
    response.status_code(StatusCode::NotFound);
    response.header("X", "y");
    response.header("Set-Cookie", "a=1");
    response.header("Set-Cookie", "b=2");
    response.body("hello, world");
    assert_eq!(
        text(response),
        "HTTP/1.1 404 Not Found\r\n\
         Server: xx0\r\n\
         Content-Length: 12\r\n\
         Date: Sun, 06 Nov 1994 08:49:37 GMT\r\n\
         X: y\r\n\
         Set-Cookie: a=1\r\n\
         Set-Cookie: b=2\r\n\
         \r\n\
         hello, world"
    );
}

#[test]
fn serialize_appends_behind_what_the_buffer_holds() {
    let mut buf = b"before".to_vec();
    Serializer.serialize(Response::new(), 0, &mut buf);
    assert!(buf.starts_with(b"beforeHTTP/1.1 200 OK\r\n"));
    assert!(contains(&buf, b"Date: Thu, 01 Jan 1970 00:00:00 GMT\r\n"));
}

#[test]
fn content_length_counts_bytes_not_characters() {
    let mut response = Response::new();
    response.body("h\u{e9}llo \u{2603}");
    let bytes = wire(response);
    assert!(contains(&bytes, b"Content-Length: 10\r\n"));
    assert!(bytes.ends_with("\r\n\r\nh\u{e9}llo \u{2603}".as_bytes()));
}

#[test]
fn header_appends_duplicates() {
    let mut response = Response::new();
    response.header("A", "1").header("A", "2").header("A", "1");
    assert!(text(response).contains("\r\nA: 1\r\nA: 2\r\nA: 1\r\n\r\n"));
}

#[test]
fn header_unique_appends_where_the_name_is_new() {
    let mut response = Response::new();
    response.header("A", "1").header_unique("B", "2");
    assert!(text(response).contains("\r\nA: 1\r\nB: 2\r\n\r\n"));
}

#[test]
fn header_unique_is_idempotent() {
    let mut once = Response::new();
    once.header("Other", "o").header_unique("A", "1");
    let mut twice = Response::new();
    twice.header("Other", "o").header_unique("A", "1").header_unique("A", "1");
    let once = text(once);
    assert_eq!(once, text(twice));
    assert_eq!(once.matches("\r\nA: 1\r\n").count(), 1);
    assert_eq!(once.matches("\r\nA: ").count(), 1);
}

#[test]
fn header_unique_after_header_overwrites_every_duplicate() {
    let mut response = Response::new();
    response
        .header("A", "1")
        .header("B", "keep")
        .header("A", "2")
        .header_unique("A", "3");
    assert!(text(response).contains("\r\nA: 3\r\nB: keep\r\nA: 3\r\n\r\n"));
}

#[test]
fn header_unique_on_duplicates_leaves_as_many_entries() {
    let mut response = Response::new();
    response.header("A", "1").header("A", "2");
    response.header_unique("A", "3").header_unique("A", "3");
    let out = text(response);
    assert_eq!(out.matches("\r\nA: 3").count(), 2);
    assert_eq!(out.matches("\r\nA: ").count(), 2);
}

#[test]
fn header_names_are_matched_case_sensitively() {
    let mut response = Response::new();
    response.header("content-type", "a").header_unique("Content-Type", "b");
    assert!(text(response).contains("\r\ncontent-type: a\r\nContent-Type: b\r\n\r\n"));
}

#[test]
fn content_type_sets_the_header_once() {
    let mut response = Response::new();
    response.content_type("text/html").content_type("text/plain");
    let out = text(response);
    assert!(out.contains("\r\nContent-Type: text/plain\r\n\r\n"));
    assert_eq!(out.matches("Content-Type").count(), 1);
}

#[test]
fn status_overwrites_the_status_line() {
    let mut response = Response::new();
    response.status_code(StatusCode::NotFound).status("418 I'm a teapot");
    assert!(text(response).starts_with("HTTP/1.1 418 I'm a teapot\r\nServer: xx0\r\n"));
}

#[test]
fn status_code_writes_the_canonical_text() {
    let mut response = Response::new();
    response.status_code(StatusCode::SwitchingProtocols);
    assert!(text(response).starts_with("HTTP/1.1 101 Switching Protocols\r\n"));
    let mut response = Response::new();
    response.status("x").status_code(StatusCode::OK);
    assert!(text(response).starts_with("HTTP/1.1 200 OK\r\n"));
    let mut response = Response::new();
    response.status_code(StatusCode::NotFound);
    assert!(text(response).starts_with("HTTP/1.1 404 Not Found\r\n"));
    let mut response = Response::new();
    response.status_code(StatusCode::InternalServerError);
    assert!(text(response).starts_with("HTTP/1.1 500 Internal Server Error\r\n"));
}

#[test]
fn status_codes_by_number_and_text() {
    assert_eq!(StatusCode::SwitchingProtocols.code(), 101);
    assert_eq!(StatusCode::OK.code(), 200);
    assert_eq!(StatusCode::NotFound.code(), 404);
    assert_eq!(StatusCode::InternalServerError.code(), 500);
    assert_eq!(StatusCode::SwitchingProtocols.msg(), "101 Switching Protocols");
    assert_eq!(StatusCode::OK.msg(), "200 OK");
    assert_eq!(StatusCode::NotFound.msg(), "404 Not Found");
    assert_eq!(StatusCode::InternalServerError.msg(), "500 Internal Server Error");
}

#[test]
fn body_overwrites_the_body() {
    let mut response = Response::new();
    response.body("first").body("second");
    let out = text(response);
    assert!(out.ends_with("\r\n\r\nsecond"));
    assert!(out.contains("Content-Length: 6\r\n"));
}

#[test]
fn serialization_does_not_deduplicate() {
    let mut response = Response::new();
    response.header("Server", "mine").header("Content-Length", "99");
    let out = text(response);
    assert_eq!(out.matches("Server: ").count(), 2);
    assert!(out.contains("Content-Length: 0\r\n"));
    assert!(out.contains("\r\nServer: mine\r\nContent-Length: 99\r\n\r\n"));
}
