use davbox::http::{
    content_length, encode_response, is_blank_line, parse_header_line, parse_request_line,
    percent_decode_path, xml_escape, Headers, Response,
};

#[test]
fn decodes_path_without_query() {
    assert_eq!(percent_decode_path("/a%20b.txt?x=1").unwrap(), "/a b.txt");
}

#[test]
fn percent_decoding_errors() {
    assert_eq!(percent_decode_path("/a%2").unwrap_err(), "Invalid percent encoding");
    assert_eq!(percent_decode_path("/a%zz").unwrap_err(), "Invalid percent encoding");
    assert_eq!(percent_decode_path("/%ff").unwrap_err(), "Path is not valid UTF-8");
}

#[test]
fn percent_decoding_reads_utf8() {
    assert_eq!(percent_decode_path("/%C3%A9t%C3%A9").unwrap(), "/été");
    assert_eq!(percent_decode_path("/plain").unwrap(), "/plain");
    assert_eq!(percent_decode_path("?only=query").unwrap(), "");
}

#[test]
fn percent_escape_accepts_a_plus_sign_like_from_str_radix() {
    // `u8::from_str_radix("+1", 16)` is 1
    assert_eq!(percent_decode_path("/%+1").unwrap(), "/\u{1}");
}

#[test]
fn xml_escape_replaces_markup() {
    assert_eq!(xml_escape("a<b>&\"c'"), "a&lt;b&gt;&amp;&quot;c&apos;");
}

#[test]
fn request_line_has_method_and_target() {
    assert_eq!(
        parse_request_line("GET /hello.txt HTTP/1.1\r\n"),
        Some(("GET".to_string(), "/hello.txt".to_string()))
    );
    assert_eq!(parse_request_line("GET\r\n"), None);
    assert_eq!(parse_request_line(""), None);
}

#[test]
fn header_lines_are_split_at_the_first_colon() {
    assert_eq!(
        parse_header_line("Content-Length: 3\r\n"),
        Some(("content-length".to_string(), "3".to_string()))
    );
    assert_eq!(
        parse_header_line("Destination: http://h:8080/x\r\n"),
        Some(("destination".to_string(), "http://h:8080/x".to_string()))
    );
    assert_eq!(parse_header_line("no colon here"), None);
    assert!(is_blank_line("\r\n"));
    assert!(!is_blank_line("Host: x\r\n"));
}

#[test]
fn content_length_defaults_to_zero() {
    let mut h = Headers::new();
    assert_eq!(content_length(&h), 0);
    h.insert("content-length".to_string(), "12".to_string());
    assert_eq!(content_length(&h), 12);
    h.insert("content-length".to_string(), "x".to_string());
    assert_eq!(content_length(&h), 0);
}

#[test]
fn later_header_replaces_earlier() {
    let mut h = Headers::new();
    h.insert("depth".to_string(), "0".to_string());
    h.insert("depth".to_string(), "1".to_string());
    assert_eq!(h.get("depth").map(|s| s.as_str()), Some("1"));
    assert_eq!(h.get("range"), None);
}

#[test]
fn responses_are_framed_with_length_and_close() {
    let r = Response::text(404, "Not Found", "Not found");
    let bytes = encode_response("GET", &r);
    let text = String::from_utf8(bytes).unwrap();
    assert_eq!(
        text,
        "HTTP/1.1 404 Not Found\r\nContent-Type: text/plain; charset=utf-8\r\nContent-Length: 9\r\nConnection: close\r\n\r\nNot found"
    );
}

#[test]
fn head_responses_carry_no_body() {
    let r = Response::new(200, "OK").with_body(b"hello".to_vec());
    let text = String::from_utf8(encode_response("HEAD", &r)).unwrap();
    assert_eq!(text, "HTTP/1.1 200 OK\r\nContent-Length: 5\r\nConnection: close\r\n\r\n");
}

#[test]
fn response_builders_keep_header_order() {
    let r = Response::new(204, "No Content").with_header("A", "1").with_header("B", "2");
    assert_eq!(r.status, 204);
    assert_eq!(r.reason, "No Content");
    assert_eq!(r.headers, vec![("A".to_string(), "1".to_string()), ("B".to_string(), "2".to_string())]);
    assert!(r.body.is_empty());
}
