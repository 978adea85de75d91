use simple_http::http::request::{HttpHeader, HttpRequest, Method, Resource, Version};

#[test]
fn method_of_get_request() {
    assert_eq!(Method::new("GET /index.html HTTP/1.1\r\nHost: x\r\n\r\n"), Method::Get);
}

#[test]
fn method_of_post_request() {
    assert_eq!(Method::new("POST /form HTTP/1.1\r\n\r\nname=x"), Method::Post);
}

#[test]
fn method_unknown_verb_is_uninitialised() {
    assert_eq!(Method::new("DELETE / HTTP/1.1\r\n\r\n"), Method::Uninitialised);
    assert_eq!(Method::new("get / HTTP/1.1\r\n\r\n"), Method::Uninitialised);
}

#[test]
fn method_without_line_break_is_uninitialised() {
    assert_eq!(Method::new("GET / HTTP/1.1"), Method::Uninitialised);
    assert_eq!(Method::new(""), Method::Uninitialised);
}

#[test]
fn method_without_whitespace_is_uninitialised() {
    assert_eq!(Method::new("GET\r\n\r\n"), Method::Uninitialised);
    assert_eq!(Method::new("POST\r\nHost: x\r\n\r\n"), Method::Uninitialised);
    assert_eq!(Method::new("\r\n"), Method::Uninitialised);
}

#[test]
fn method_is_cut_at_the_first_whitespace() {
    assert_eq!(Method::new("GET\t/ HTTP/1.1\r\n\r\n"), Method::Get);
    assert_eq!(Method::new("POST\t/form\tHTTP/1.1\r\n\r\n"), Method::Post);
    assert_eq!(Method::new("GET\x0C/ HTTP/1.1\r\n\r\n"), Method::Get);
    assert_eq!(Method::new("GET\n/ HTTP/1.1\r\n\r\n"), Method::Get);
    assert_eq!(Method::new("GET\r/ HTTP/1.1\r\n\r\n"), Method::Get);
    assert_eq!(Method::new("GET \r\n"), Method::Get);
    assert_eq!(Method::new("GET\t\r\n"), Method::Get);
    assert_eq!(Method::new("PUT\t/ HTTP/1.1\r\n\r\n"), Method::Uninitialised);
}

#[test]
fn method_whitespace_is_ascii_whitespace() {
    assert_eq!(Method::new("GET\u{a0}/ HTTP/1.1\r\n\r\n"), Method::Uninitialised);
    assert_eq!(Method::new("GET\x0B/ HTTP/1.1\r\n\r\n"), Method::Uninitialised);
    assert_eq!(Method::new("GET\u{2003}/\r\n\r\n"), Method::Uninitialised);
}

#[test]
fn method_after_leading_whitespace_is_uninitialised() {
    assert_eq!(Method::new(" GET / HTTP/1.1\r\n\r\n"), Method::Uninitialised);
    assert_eq!(Method::new("\tGET / HTTP/1.1\r\n\r\n"), Method::Uninitialised);
}

#[test]
fn identify_known_and_unknown_verbs() {
    assert_eq!(Method::identify("GET"), Method::Get);
    assert_eq!(Method::identify("POST"), Method::Post);
    assert_eq!(Method::identify("PUT"), Method::Uninitialised);
    assert_eq!(Method::identify(""), Method::Uninitialised);
    assert_eq!(Method::identify("GET "), Method::Uninitialised);
    assert_eq!(Method::identify("GE"), Method::Uninitialised);
}

#[test]
fn version_one_one() {
    assert_eq!(Version::new("GET / HTTP/1.1\r\n\r\n").unwrap(), Version::V1_1);
}

#[test]
fn version_two_in_both_spellings() {
    assert_eq!(Version::new("GET / HTTP/2\r\n\r\n").unwrap(), Version::V2_0);
    assert_eq!(Version::new("GET / HTTP/2.0\r\n\r\n").unwrap(), Version::V2_0);
}

#[test]
fn version_token_may_stand_anywhere() {
    assert_eq!(Version::new("HTTP/1.1 GET /\r\n\r\n").unwrap(), Version::V1_1);
    assert_eq!(Version::new("GET HTTP/2 /\r\n\r\n").unwrap(), Version::V2_0);
    assert_eq!(Version::new("HTTP/2.0\r\n").unwrap(), Version::V2_0);
    assert_eq!(Version::new("  \t HTTP/1.1  \r\n").unwrap(), Version::V1_1);
}

#[test]
fn version_first_matching_token_wins() {
    assert_eq!(Version::new("GET / HTTP/2 HTTP/1.1\r\n\r\n").unwrap(), Version::V2_0);
    assert_eq!(Version::new("GET / HTTP/1.1 HTTP/2\r\n\r\n").unwrap(), Version::V1_1);
}

#[test]
fn version_tokens_are_cut_at_ascii_whitespace() {
    assert_eq!(Version::new("GET\t/\tHTTP/1.1\r\n\r\n").unwrap(), Version::V1_1);
    assert_eq!(Version::new("GET /\x0CHTTP/1.1\r\n").unwrap(), Version::V1_1);
    assert_eq!(Version::new("GET /\nHTTP/1.1\r\n").unwrap(), Version::V1_1);
    assert!(Version::new("GET /\u{a0}HTTP/1.1\r\n").is_err());
    assert!(Version::new("GET /\x0BHTTP/1.1\r\n").is_err());
}

#[test]
fn version_must_be_a_whole_token() {
    assert!(Version::new("GET / HTTP/1.1x\r\n\r\n").is_err());
    assert!(Version::new("GET / xHTTP/1.1\r\n\r\n").is_err());
    assert!(Version::new("GET / HTTP/1.0\r\n\r\n").is_err());
    assert!(Version::new("GET / http/1.1\r\n\r\n").is_err());
}

#[test]
fn version_is_read_from_the_first_line_only() {
    assert!(Version::new("GET /\r\nHTTP/1.1\r\n\r\n").is_err());
}

#[test]
fn version_error_repeats_the_request() {
    let e = Version::new("GET /\r\n\r\n").unwrap_err();
    assert_eq!(e.message(), "Unknown protocol version in GET /\r\n\r\n");
}

#[test]
fn version_without_line_break_fails() {
    let e = Version::new("GET / HTTP/1.1").unwrap_err();
    assert_eq!(e.message(), "Unknown protocol version in GET / HTTP/1.1");
    assert_eq!(Version::new("").unwrap_err().message(), "Unknown protocol version in ");
}

#[test]
fn version_as_str_gives_the_wire_token() {
    assert_eq!(Version::V1_1.as_str(), "HTTP/1.1");
    assert_eq!(Version::V2_0.as_str(), "HTTP/2");
}

#[test]
fn resource_strips_one_leading_separator() {
    let r = Resource::new("GET /readme.txt HTTP/1.1\r\nHost: x\r\n\r\n").unwrap();
    assert_eq!(r.path, "readme.txt");
    let r = Resource::new("GET /a/b/c.html HTTP/1.1\r\nHost: x\r\n\r\n").unwrap();
    assert_eq!(r.path, "a/b/c.html");
}

#[test]
fn resource_strips_exactly_one_separator() {
    let r = Resource::new("GET //etc/passwd HTTP/1.1\r\n\r\n").unwrap();
    assert_eq!(r.path, "/etc/passwd");
}

#[test]
fn resource_of_root_is_empty() {
    let r = Resource::new("GET / HTTP/1.1\r\n\r\n").unwrap();
    assert_eq!(r.path, "");
}

#[test]
fn resource_without_separator_is_kept() {
    let r = Resource::new("GET index.html HTTP/1.1\r\n\r\n").unwrap();
    assert_eq!(r.path, "index.html");
    let r = Resource::new("GET  HTTP/1.1\r\n\r\n").unwrap();
    assert_eq!(r.path, "");
}

#[test]
fn resource_is_not_normalised() {
    let r = Resource::new("GET /../secret%20file HTTP/1.1\r\n\r\n").unwrap();
    assert_eq!(r.path, "../secret%20file");
}

#[test]
fn resource_of_post_is_read_like_get() {
    let r = Resource::new("POST /submit HTTP/1.1\r\n\r\nx=1").unwrap();
    assert_eq!(r.path, "submit");
}

#[test]
fn resource_is_cut_at_spaces() {
    let r = Resource::new("GET /a\tb HTTP/1.1\r\n\r\n").unwrap();
    assert_eq!(r.path, "a\tb");
    assert!(Resource::new("GET\t/a HTTP/1.1\r\n\r\n").is_none());
    assert!(Resource::new("GET\t/a\tHTTP/1.1\r\n\r\n").is_none());
}

#[test]
fn resource_absent_for_unknown_method() {
    assert!(Resource::new("DELETE /x HTTP/1.1\r\n\r\n").is_none());
}

#[test]
fn resource_absent_for_malformed_line() {
    assert!(Resource::new("GET /x\r\n\r\n").is_none());
    assert!(Resource::new("GET\r\n\r\n").is_none());
    assert!(Resource::new("GET /x HTTP/1.1").is_none());
    assert!(Resource::new("").is_none());
}

#[test]
fn headers_are_collected_and_trimmed() {
    let h = HttpHeader::new("GET / HTTP/1.1\r\nHost:   example.org  \r\n Accept :text/html\r\n\r\n")
        .unwrap();
    assert_eq!(h.len(), 2);
    assert_eq!(h.get("Host").unwrap(), "example.org");
    assert_eq!(h.get("Accept").unwrap(), "text/html");
    assert!(h.get("host").is_none());
}

#[test]
fn headers_count_matches_well_formed_lines() {
    let h = HttpHeader::new("GET / HTTP/1.1\r\nA: 1\r\nB: 2\r\nC: 3\r\n\r\n").unwrap();
    assert_eq!(h.len(), 3);
    assert_eq!(h.get("A").unwrap(), "1");
    assert_eq!(h.get("B").unwrap(), "2");
    assert_eq!(h.get("C").unwrap(), "3");
}

#[test]
fn headers_last_value_wins() {
    let h = HttpHeader::new("GET / HTTP/1.1\r\nA: 1\r\nB: 2\r\nA: 3\r\n\r\n").unwrap();
    assert_eq!(h.len(), 2);
    assert_eq!(h.get("A").unwrap(), "3");
}

#[test]
fn headers_value_keeps_later_colons() {
    let h = HttpHeader::new("GET / HTTP/1.1\r\nHost: localhost:5500\r\n\r\n").unwrap();
    assert_eq!(h.get("Host").unwrap(), "localhost:5500");
}

#[test]
fn headers_trim_unicode_whitespace() {
    let h = HttpHeader::new("GET / HTTP/1.1\r\n\u{2003}Name\u{a0}:\u{3000}value\t\r\n\r\n").unwrap();
    assert_eq!(h.get("Name").unwrap(), "value");
}

#[test]
fn headers_stop_at_the_empty_line() {
    let h = HttpHeader::new("GET / HTTP/1.1\r\nA: 1\r\n\r\nnot a header\r\nB: 2\r\n").unwrap();
    assert_eq!(h.len(), 1);
    assert!(h.get("B").is_none());
}

#[test]
fn headers_empty_block() {
    assert_eq!(HttpHeader::new("GET / HTTP/1.1\r\n\r\n").unwrap().len(), 0);
    assert_eq!(HttpHeader::new("GET / HTTP/1.1\r\n").unwrap().len(), 0);
}

#[test]
fn headers_last_line_needs_no_line_break() {
    let h = HttpHeader::new("GET / HTTP/1.1\r\nA: 1").unwrap();
    assert_eq!(h.len(), 1);
    assert_eq!(h.get("A").unwrap(), "1");
}

#[test]
fn headers_line_without_colon_gives_none() {
    assert!(HttpHeader::new("GET / HTTP/1.1\r\nA: 1\r\nbroken\r\nB: 2\r\n\r\n").is_none());
}

#[test]
fn headers_without_request_line_give_none() {
    assert!(HttpHeader::new("A: 1").is_none());
    assert!(HttpHeader::new("").is_none());
}

#[test]
fn headers_empty_name_and_value() {
    let h = HttpHeader::new("GET / HTTP/1.1\r\n:\r\n\r\n").unwrap();
    assert_eq!(h.len(), 1);
    assert_eq!(h.get("").unwrap(), "");
}

#[test]
fn request_assembles_all_parts() {
    let r = HttpRequest::new("POST /submit HTTP/1.1\r\nHost: x\r\nContent-Length: 5\r\n\r\nhello")
        .unwrap();
    assert_eq!(r.method(), Method::Post);
    assert_eq!(r.resource.path, "submit");
    assert_eq!(r.resource().path, "submit");
    assert_eq!(r.version(), Version::V1_1);
    assert_eq!(r.headers().len(), 2);
    assert_eq!(r.headers().get("Host").unwrap(), "x");
    assert_eq!(r.headers().get("Content-Length").unwrap(), "5");
    assert_eq!(r.request_body, "hello");
    assert_eq!(r.request_body(), "hello");
}

#[test]
fn request_body_is_taken_verbatim() {
    let r = HttpRequest::new("POST / HTTP/1.1\r\n\r\n a\r\n\r\nb ").unwrap();
    assert_eq!(r.request_body, " a\r\n\r\nb ");
}

#[test]
fn request_without_empty_line_has_empty_body() {
    let r = HttpRequest::new("GET / HTTP/1.1\r\nHost: x\r\n").unwrap();
    assert_eq!(r.request_body, "");
    assert_eq!(r.headers().len(), 1);
}

#[test]
fn request_absorbs_malformed_headers() {
    let r = HttpRequest::new("GET /a HTTP/1.1\r\nA: 1\r\nbroken\r\n\r\nbody").unwrap();
    assert_eq!(r.headers().len(), 0);
    assert_eq!(r.resource.path, "a");
    assert_eq!(r.request_body, "body");
}

#[test]
fn request_absorbs_missing_resource() {
    let r = HttpRequest::new("GET HTTP/1.1\r\n\r\n").unwrap();
    assert_eq!(r.method(), Method::Get);
    assert_eq!(r.resource.path, "");
}

#[test]
fn request_with_tabs_in_the_request_line() {
    let r = HttpRequest::new("GET\t/a\tHTTP/1.1\r\nHost: x\r\n\r\n").unwrap();
    assert_eq!(r.method(), Method::Get);
    assert_eq!(r.version(), Version::V1_1);
    assert_eq!(r.resource.path, "");
    assert_eq!(r.headers().len(), 1);
}

#[test]
fn request_keeps_unknown_method() {
    let r = HttpRequest::new("DELETE /x HTTP/2\r\n\r\n").unwrap();
    assert_eq!(r.method(), Method::Uninitialised);
    assert_eq!(r.resource.path, "");
    assert_eq!(r.version(), Version::V2_0);
}

#[test]
fn request_without_version_fails() {
    let e = match HttpRequest::new("GET /index.html\r\nHost: x\r\n\r\n") {
        Ok(_) => panic!("a request without a version was accepted"),
        Err(e) => e,
    };
    assert_eq!(e.message(), "Unknown protocol version in GET /index.html\r\nHost: x\r\n\r\n");
}

#[test]
fn request_with_replacement_characters() {
    let text = String::from_utf8_lossy(b"GET /\xff HTTP/1.1\r\nA: \xfe\r\n\r\n");
    let r = HttpRequest::new(&text).unwrap();
    assert_eq!(r.resource.path, "\u{fffd}");
    assert_eq!(r.headers().get("A").unwrap(), "\u{fffd}");
}

#[test]
fn request_padded_with_zero_bytes() {
    let mut buffer = [0u8; 64];
    let text = b"GET /a HTTP/1.1\r\n\r\n";
    buffer[..text.len()].copy_from_slice(text);
    let decoded = String::from_utf8_lossy(&buffer);
    let r = HttpRequest::new(&decoded).unwrap();
    assert_eq!(r.resource.path, "a");
    assert_eq!(r.request_body.len(), 64 - text.len());
}

#[test]
fn from_bytes_reads_valid_text_as_it_is() {
    let r = HttpRequest::from_bytes("GET /caf\u{e9} HTTP/1.1\r\nHost: x\r\n\r\nbody".as_bytes()).unwrap();
    assert_eq!(r.method(), Method::Get);
    assert_eq!(r.resource.path, "caf\u{e9}");
    assert_eq!(r.headers().get("Host").unwrap(), "x");
    assert_eq!(r.request_body, "body");
}

#[test]
fn from_bytes_replaces_what_is_no_utf8() {
    let r = HttpRequest::from_bytes(b"GET /a\xffb\xc3 HTTP/1.1\r\nA: \xe2\x82\r\n\r\n").unwrap();
    assert_eq!(r.resource.path, "a\u{fffd}b\u{fffd}");
    assert_eq!(r.headers().get("A").unwrap(), "\u{fffd}");
}

#[test]
fn from_bytes_error_holds_the_decoded_text() {
    let e = match HttpRequest::from_bytes(b"GET /\xff\r\n\r\n") {
        Ok(_) => panic!("a request without a version was accepted"),
        Err(e) => e,
    };
    assert_eq!(e.message(), "Unknown protocol version in GET /\u{fffd}\r\n\r\n");
}

#[test]
fn from_bytes_takes_the_whole_buffer() {
    let mut buffer = [0u8; 1024];
    let text = b"GET /a HTTP/1.1\r\nHost: x\r\n\r\n";
    buffer[..text.len()].copy_from_slice(text);
    let r = HttpRequest::from_bytes(&buffer).unwrap();
    assert_eq!(r.resource.path, "a");
    assert_eq!(r.headers().len(), 1);
    assert_eq!(r.request_body.len(), 1024 - text.len());
    assert!(r.request_body.chars().all(|c| c == '\0'));
}

#[test]
fn version_parses_from_str() {
    let v: Version = "GET / HTTP/2.0\r\n\r\n".parse().unwrap();
    assert_eq!(v, Version::V2_0);
    assert!("GET /\r\n".parse::<Version>().is_err());
}
