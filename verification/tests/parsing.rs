use http_server::headers::HeaderMap;
use http_server::request::{parse_request, parse_request_line};

// A basic request line parses into method, path, and protocol.
#[test]
fn test_parse_request_line_valid() {
    let input = "GET / HTTP/1.1";

    let (method, path, protocol) = parse_request_line(input);
    assert_eq!(method, "GET");
    assert_eq!(path, "/");
    assert_eq!(protocol, "HTTP/1.1");
}

// A complete request with one header parses into method, path, and map.
#[test]
fn test_parse_request_valid() {
    let input = "GET / HTTP/1.1\r\nHost: localhost\r\n\r\n";
    let (method, path, headers) = parse_request(input);
    assert_eq!(method, "GET");
    assert_eq!(path, "/");
    assert_eq!(headers.get("Host"), Some(&"localhost".to_string()));
}

// A request without headers yields an empty header map.
#[test]
fn test_parse_request_no_headers() {
    let input = "GET / HTTP/1.1\r\n\r\n";
    let (method, path, headers) = parse_request(input);
    assert_eq!(method, "GET");
    assert_eq!(path, "/");
    assert!(headers.is_empty());
}

// Runs of whitespace between the tokens collapse: still three tokens.
#[test]
fn parse_request_line_extra_whitespace() {
    let (method, path, protocol) = parse_request_line("GET   /index.html\t HTTP/1.1");
    assert_eq!(method, "GET");
    assert_eq!(path, "/index.html");
    assert_eq!(protocol, "HTTP/1.1");
}

// Any token count other than three parses to three empty strings.
#[test]
fn parse_request_line_wrong_token_counts() {
    assert_eq!(parse_request_line(""), (String::new(), String::new(), String::new()));
    assert_eq!(parse_request_line("GET"), (String::new(), String::new(), String::new()));
    assert_eq!(parse_request_line("GET /"), (String::new(), String::new(), String::new()));
    assert_eq!(
        parse_request_line("GET / HTTP/1.1 extra"),
        (String::new(), String::new(), String::new())
    );
}

// Tokens split on Unicode whitespace too: a no-break space separates,
// so this line has four tokens and is malformed.
#[test]
fn parse_request_line_unicode_whitespace() {
    assert_eq!(
        parse_request_line("GET / HTTP/1.1\u{a0}extra"),
        (String::new(), String::new(), String::new())
    );
    let (method, path, protocol) = parse_request_line("GET\u{a0}/\u{2003}HTTP/1.1");
    assert_eq!(method, "GET");
    assert_eq!(path, "/");
    assert_eq!(protocol, "HTTP/1.1");
}

// A final line that no newline terminates keeps a trailing carriage
// return: it is not a "\r\n" ending.
#[test]
fn parse_request_truncated_final_line() {
    let input = "GET / HTTP/1.1\r\nHost: x\r";
    let (method, _, headers) = parse_request(input);
    assert_eq!(method, "GET");
    assert_eq!(headers.get("Host"), Some(&"x\r".to_string()));
}

// A header line without the ": " separator is dropped, including one
// with a colon but no space after it.
#[test]
fn parse_request_drops_lines_without_separator() {
    let input = "GET / HTTP/1.1\r\nHost: localhost\r\nGarbage\r\nBad:NoSpace\r\n\r\n";
    let (_, _, headers) = parse_request(input);
    assert_eq!(headers.get("Host"), Some(&"localhost".to_string()));
    assert_eq!(headers.get("Garbage"), None);
    assert_eq!(headers.get("Bad"), None);
    assert_eq!(headers.get("Bad:NoSpace"), None);
}

// Writing the same header key twice keeps the last value.
#[test]
fn parse_request_last_value_wins() {
    let input = "GET / HTTP/1.1\r\nX-Tag: one\r\nX-Tag: two\r\n\r\n";
    let (_, _, headers) = parse_request(input);
    assert_eq!(headers.get("X-Tag"), Some(&"two".to_string()));
}

// Header parsing stops at the first blank line; later lines are never
// inspected.
#[test]
fn parse_request_stops_at_blank_line() {
    let input = "GET / HTTP/1.1\r\nHost: localhost\r\n\r\nAfter: terminator\r\n";
    let (_, _, headers) = parse_request(input);
    assert_eq!(headers.get("Host"), Some(&"localhost".to_string()));
    assert_eq!(headers.get("After"), None);
}

// Keys and values are stored verbatim: no trimming, case kept, and the
// split happens at the first ": " only.
#[test]
fn parse_request_header_values_verbatim() {
    let input = "GET / HTTP/1.1\r\nhost:  padded\r\nNote: a: b\r\n\r\n";
    let (_, _, headers) = parse_request(input);
    assert_eq!(headers.get("host"), Some(&" padded".to_string()));
    assert_eq!(headers.get("Host"), None);
    assert_eq!(headers.get("Note"), Some(&"a: b".to_string()));
}

// The header map itself: insert overrides, lookup is exact.
#[test]
fn header_map_insert_get() {
    let mut map = HeaderMap::new();
    assert!(map.is_empty());
    map.insert("Host".to_string(), "one".to_string());
    map.insert("Host".to_string(), "two".to_string());
    assert!(!map.is_empty());
    assert!(map.contains_key("Host"));
    assert_eq!(map.get("Host"), Some(&"two".to_string()));
    assert!(!map.contains_key("host"));
    assert_eq!(map.get("host"), None);
}
