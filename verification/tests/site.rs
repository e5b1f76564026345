use http::decimal::parse_u8;
use http::site::{Route, StaticFiles};
use http::text::{same_bytes, spells};
use http::{ByteBuffer, Parsed, Parser, Request, Response, Serializer};

fn request(bytes: &[u8]) -> Request {
    let mut buf = ByteBuffer::new();
    buf.append(bytes);
    match Parser.parse(&mut buf) {
        Parsed::Complete(request) => request,
        _ => panic!("no request"),
    }
}

fn handshake(lines: &str) -> Request {
    request(format!("GET /chat HTTP/1.1\r\n{}\r\n", lines).as_bytes())
}

fn rendered(response: Response) -> String {
    let mut buf = Vec::new();
    Serializer.serialize(response, 0, &mut buf);
    String::from_utf8(buf).unwrap()
}

const ASKS: &str = "Host: example.org\r\n\
                    Upgrade: websocket\r\n\
                    Connection: Upgrade\r\n\
                    Sec-WebSocket-Key: dGhlIHNhbXBsZSBub25jZQ==\r\n\
                    Sec-WebSocket-Version: 13\r\n";

#[test]
fn reads_numbers_as_rust_reads_a_u8() {
    assert_eq!(parse_u8(b"0"), Some(0));
    assert_eq!(parse_u8(b"13"), Some(13));
    assert_eq!(parse_u8(b"+13"), Some(13));
    assert_eq!(parse_u8(b"013"), Some(13));
    assert_eq!(parse_u8(b"0000255"), Some(255));
    assert_eq!(parse_u8(b"255"), Some(255));
    assert_eq!(parse_u8(b"256"), None);
    assert_eq!(parse_u8(b"260"), None);
    assert_eq!(parse_u8(b"1000"), None);
    assert_eq!(parse_u8(b""), None);
    assert_eq!(parse_u8(b"+"), None);
    assert_eq!(parse_u8(b"-1"), None);
    assert_eq!(parse_u8(b"-0"), None);
    assert_eq!(parse_u8(b"++1"), None);
    assert_eq!(parse_u8(b"1 "), None);
    assert_eq!(parse_u8(b" 1"), None);
    assert_eq!(parse_u8(b"1a"), None);
    assert_eq!(parse_u8(b"\xff"), None);
}

#[test]
fn reading_numbers_agrees_with_the_standard_library() {
    let texts = [
        "0", "7", "13", "+13", "013", "255", "256", "999", "", "+", "-", "-5", "1+", "12x", "0x10",
        "00000000000000000001", "25 5", "2_5",
    ];
    for text in texts {
        assert_eq!(parse_u8(text.as_bytes()), text.parse::<u8>().ok());
    }
    for n in 0..=300u32 {
        let text = n.to_string();
        assert_eq!(parse_u8(text.as_bytes()), text.parse::<u8>().ok());
    }
}

#[test]
fn compares_bytes() {
    assert!(same_bytes(b"", b""));
    assert!(same_bytes(b"abc", b"abc"));
    assert!(!same_bytes(b"abc", b"abd"));
    assert!(!same_bytes(b"abc", b"ab"));
    assert!(spells(b"GET", "GET"));
    assert!(!spells(b"get", "GET"));
    assert!(spells("caf\u{e9}".as_bytes(), "caf\u{e9}"));
}

#[test]
fn the_accept_key_of_the_standard() {
    assert_eq!(
        StaticFiles.accept_key("dGhlIHNhbXBsZSBub25jZQ=="),
        "s3pPLMBiTxaQ9kYGzzhZRbK+xOo="
    );
}

#[test]
fn the_accept_key_of_an_empty_key() {
    assert_eq!(StaticFiles.accept_key(""), "Kfh9QIsMVZcl6xEPYxPHzW8SZ8w=");
}

#[test]
fn a_handshake_yields_the_client_key() {
    let request = handshake(ASKS);
    assert_eq!(
        StaticFiles.websocket_key(&request),
        Some("dGhlIHNhbXBsZSBub25jZQ==")
    );
    assert!(matches!(
        StaticFiles.route(&request),
        Route::Upgrade("dGhlIHNhbXBsZSBub25jZQ==")
    ));
}

#[test]
fn a_handshake_needs_every_header() {
    for dropped in ["Upgrade: ", "Connection: ", "Sec-WebSocket-Key: ", "Sec-WebSocket-Version: "] {
        let lines: String = ASKS
            .split_inclusive("\r\n")
            .filter(|line| !line.starts_with(dropped))
            .collect();
        assert_eq!(StaticFiles.websocket_key(&handshake(&lines)), None);
    }
}

#[test]
fn a_handshake_needs_http_1_1() {
    let request = request(format!("GET /chat HTTP/1.0\r\n{}\r\n", ASKS).as_bytes());
    assert_eq!(StaticFiles.websocket_key(&request), None);
    assert!(matches!(StaticFiles.route(&request), Route::Serve(_)));
}

#[test]
fn a_handshake_needs_version_13_or_later() {
    let with = |version: &str| {
        handshake(&ASKS.replace("Version: 13", &format!("Version: {}", version)))
    };
    assert_eq!(StaticFiles.websocket_key(&with("12")), None);
    assert_eq!(StaticFiles.websocket_key(&with("256")), None);
    assert_eq!(StaticFiles.websocket_key(&with("13, 8")), None);
    assert_eq!(StaticFiles.websocket_key(&with("")), None);
    assert!(StaticFiles.websocket_key(&with("14")).is_some());
    assert!(StaticFiles.websocket_key(&with("+13")).is_some());
    assert!(StaticFiles.websocket_key(&with("255")).is_some());
}

#[test]
fn one_good_version_among_several_is_enough() {
    let lines = format!("Sec-WebSocket-Version: 8\r\n{}Sec-WebSocket-Version: x\r\n", ASKS);
    assert!(StaticFiles.websocket_key(&handshake(&lines)).is_some());
}

#[test]
fn names_and_values_are_compared_exactly() {
    assert_eq!(
        StaticFiles.websocket_key(&handshake(&ASKS.replace("websocket", "WebSocket"))),
        None
    );
    assert_eq!(
        StaticFiles.websocket_key(&handshake(&ASKS.replace("Connection: Upgrade", "Connection: upgrade"))),
        None
    );
    assert_eq!(
        StaticFiles.websocket_key(&handshake(&ASKS.replace("Upgrade: ", "upgrade: "))),
        None
    );
    assert_eq!(
        StaticFiles.websocket_key(&handshake(&ASKS.replace("Connection: Upgrade", "Connection: keep-alive, Upgrade"))),
        None
    );
}

#[test]
fn the_last_key_decides() {
    let lines = format!("{}Sec-WebSocket-Key: second\r\n", ASKS);
    assert_eq!(StaticFiles.websocket_key(&handshake(&lines)), Some("second"));
    let lines = format!("Sec-WebSocket-Key: first\r\n{}", ASKS);
    assert_eq!(
        StaticFiles.websocket_key(&handshake(&lines)),
        Some("dGhlIHNhbXBsZSBub25jZQ==")
    );
}

#[test]
fn a_key_that_is_no_text_is_no_key() {
    let mut bytes = format!("GET /chat HTTP/1.1\r\n{}", ASKS).into_bytes();
    bytes.extend_from_slice(b"Sec-WebSocket-Key: \xff\xfe\r\n\r\n");
    let request = request(&bytes);
    assert_eq!(StaticFiles.websocket_key(&request), None);
    assert!(matches!(StaticFiles.route(&request), Route::Serve(_)));
}

#[test]
fn an_empty_key_is_a_key() {
    let request = handshake(&ASKS.replace("dGhlIHNhbXBsZSBub25jZQ==", ""));
    assert_eq!(StaticFiles.websocket_key(&request), Some(""));
}

#[test]
fn only_get_is_served() {
    for method in ["POST", "HEAD", "get", "GETS", "PUT"] {
        let request = request(format!("{} /a HTTP/1.1\r\n{}\r\n", method, ASKS).as_bytes());
        assert!(matches!(StaticFiles.route(&request), Route::Refuse));
    }
}

#[test]
fn a_plain_get_is_for_a_file() {
    let request = request(b"GET /js/../app.js?x HTTP/1.1\r\nHost: h\r\n\r\n");
    match StaticFiles.route(&request) {
        Route::Serve(names) => assert_eq!(names, vec!["js", "app.js?x"]),
        _ => panic!("not a file"),
    }
}

#[test]
fn components_drop_empty_parts_and_parents() {
    let names = |path: &str| -> Vec<String> {
        StaticFiles.components(path).into_iter().map(str::to_string).collect()
    };
    let none: Vec<String> = Vec::new();
    assert_eq!(names("/a/b"), vec!["a", "b"]);
    assert_eq!(names("/"), none);
    assert_eq!(names(""), none);
    assert_eq!(names(".."), none);
    assert_eq!(names("a"), vec!["a"]);
    assert_eq!(names("/../etc/passwd"), vec!["etc", "passwd"]);
    assert_eq!(names("/a//b/"), vec!["a", "b"]);
    assert_eq!(names("/../../.."), none);
    assert_eq!(names("/.../x"), vec!["...", "x"]);
    assert_eq!(names("/./x/."), vec![".", "x", "."]);
    assert_eq!(names("/..a/a../.b"), vec!["..a", "a..", ".b"]);
    assert_eq!(names("/caf\u{e9}/\u{2603}"), vec!["caf\u{e9}", "\u{2603}"]);
    assert_eq!(names("index.html"), vec!["index.html"]);
}

#[test]
fn components_agree_with_split_and_filter() {
    for path in ["/a/b/c", "//", "/x/../y/./z/", "a/b", "/..//../q", "\u{e9}/\u{e9}", "/a/..b/c.."] {
        let expected: Vec<&str> = path.split("/").filter(|c| *c != "" && *c != "..").collect();
        assert_eq!(StaticFiles.components(path), expected);
    }
}

#[test]
fn the_error_response() {
    let mut response = Response::new();
    response.header("X", "kept");
    StaticFiles.set_error_response(&mut response);
    let out = rendered(response);
    assert!(out.starts_with("HTTP/1.1 500 Internal Server Error\r\n"));
    assert!(out.contains("\r\nX: kept\r\nContent-Type: text/html\r\n\r\n"));
    assert!(out.ends_with("\r\n\r\nError"));
}

#[test]
fn the_upgrade_response() {
    let mut response = Response::new();
    StaticFiles.set_upgrade_response(&mut response, "s3pPLMBiTxaQ9kYGzzhZRbK+xOo=");
    let out = rendered(response);
    assert!(out.starts_with("HTTP/1.1 101 Switching Protocols\r\n"));
    assert!(out.ends_with(
        "\r\nUpgrade: Websocket\r\n\
         Connection: Upgrade\r\n\
         Sec-WebSocket-Accept: s3pPLMBiTxaQ9kYGzzhZRbK+xOo=\r\n\r\n"
    ));
}

#[test]
fn the_missing_response() {
    let mut response = Response::new();
    response.content_type("application/javascript");
    StaticFiles.set_missing_response(&mut response, "htdocs/nope.js");
    let out = rendered(response);
    assert!(out.starts_with("HTTP/1.1 404 Not Found\r\n"));
    assert!(out.ends_with("\r\nContent-Type: text/html\r\n\r\nhtdocs/nope.js"));
    assert_eq!(out.matches("Content-Type").count(), 1);
}

#[test]
fn the_file_response() {
    let mut response = Response::new();
    StaticFiles.set_file_response(&mut response, "html", "<p>hi</p>");
    let out = rendered(response);
    assert!(out.starts_with("HTTP/1.1 200 OK\r\n"));
    assert!(out.ends_with("\r\nContent-Type: text/html\r\n\r\n<p>hi</p>"));
    let mut response = Response::new();
    StaticFiles.set_file_response(&mut response, "txt", "plain");
    let out = rendered(response);
    assert!(!out.contains("Content-Type"));
    assert!(out.ends_with("\r\n\r\nplain"));
}

#[test]
fn content_types_by_extension() {
    assert_eq!(StaticFiles.content_type_for("html"), Some("text/html"));
    assert_eq!(StaticFiles.content_type_for("js"), Some("application/javascript"));
    assert_eq!(StaticFiles.content_type_for("HTML"), None);
    assert_eq!(StaticFiles.content_type_for("htm"), None);
    assert_eq!(StaticFiles.content_type_for(""), None);
}
