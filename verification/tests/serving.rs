use http_server::connection::{handle_connection, ConnectionPlan};
use http_server::dispatch::{content_type_for, finish_static, handle_request, Dispatch};
use http_server::response::{bad_request_response, response_head, Body};
use http_server::routes::RouteTable;

// A GET for a path with no route becomes a probe; a missing file
// resolves it to 404.
#[test]
fn test_handle_request_not_found() {
    let routes = RouteTable::new();
    let probe = match handle_request("GET", "/nonexistent.html", "static", &routes) {
        Dispatch::Probe(probe) => probe,
        Dispatch::Done(_) => panic!("expected a static-file probe"),
    };
    let response = finish_static(probe, false);
    assert_eq!(response.status, 404);
    assert_eq!(response.reason, "Not Found");
    assert_eq!(response.content_type, "text/plain");
    assert!(matches!(response.body, Body::Empty));
}

// A GET whose path is registered answers with the route's output.
#[test]
fn test_handle_request_api_route() {
    let mut routes = RouteTable::new();
    routes.insert(
        "/api/hello".to_string(),
        r#"{"message": "Hello, World!"}"#.to_string(),
        "application/json".to_string(),
    );

    let response = match handle_request("GET", "/api/hello", "", &routes) {
        Dispatch::Done(response) => response,
        Dispatch::Probe(_) => panic!("expected a finished response"),
    };
    assert_eq!(response.status, 200);
    assert_eq!(response.reason, "OK");
    assert_eq!(response.content_type, "application/json");
    match response.body {
        Body::Text(text) => assert_eq!(text, r#"{"message": "Hello, World!"}"#),
        _ => panic!("expected an in-memory body"),
    }
}

// A GET for the root path probes index.html under the base directory;
// an existing file answers 200 as text/html.
#[test]
fn test_handle_request_index_file() {
    let routes = RouteTable::new();
    let probe = match handle_request("GET", "/", "static", &routes) {
        Dispatch::Probe(probe) => probe,
        Dispatch::Done(_) => panic!("expected a static-file probe"),
    };
    assert_eq!(probe.candidate, "static/index.html");
    assert_eq!(probe.content_type, "text/html");
    let response = finish_static(probe, true);
    assert_eq!(response.status, 200);
    assert_eq!(response.content_type, "text/html");
}

// An existing candidate file is streamed: the response body names the
// candidate path for the embedding program to copy from.
#[test]
fn test_handle_request_stream_file() {
    let routes = RouteTable::new();
    let probe = match handle_request("GET", "/", "static", &routes) {
        Dispatch::Probe(probe) => probe,
        Dispatch::Done(_) => panic!("expected a static-file probe"),
    };
    let response = finish_static(probe, true);
    assert_eq!(response.status, 200);
    assert_eq!(response.content_type, "text/html");
    match response.body {
        Body::File(path) => assert_eq!(path, "static/index.html"),
        _ => panic!("expected a streamed body"),
    }
}

// A full valid request against a route table answers 200 with the
// route's body in the response text.
#[test]
fn test_handle_connection_valid_request() {
    let mut routes = RouteTable::new();
    routes.insert(
        "/api/hello".to_string(),
        r#"{"message": "Hello"}"#.to_string(),
        "application/json".to_string(),
    );

    let request = "GET /api/hello HTTP/1.1\r\nHost: localhost\r\n\r\n";
    let response = match handle_connection(request, "", &routes) {
        ConnectionPlan::Done(response) => response,
        _ => panic!("expected a finished response"),
    };
    let mut text = response_head(&response);
    match &response.body {
        Body::Text(body) => text.push_str(body),
        _ => panic!("expected an in-memory body"),
    }

    assert!(text.contains("HTTP/1.1 200 OK"));
    assert!(text.contains(r#"{"message": "Hello"}"#));
}

// Any non-GET method answers 405 with an empty body, even for a
// registered path.
#[test]
fn dispatch_non_get_is_405() {
    let mut routes = RouteTable::new();
    routes.insert("/api/hello".to_string(), "body".to_string(), "text/plain".to_string());
    let response = match handle_request("POST", "/api/hello", "static", &routes) {
        Dispatch::Done(response) => response,
        Dispatch::Probe(_) => panic!("expected a finished response"),
    };
    assert_eq!(response.status, 405);
    assert_eq!(response.reason, "Method Not Allowed");
    assert_eq!(response.content_type, "text/plain");
    assert!(matches!(response.body, Body::Empty));
}

// The route table takes precedence over static files: a registered path
// answers from the table and no file is ever probed.
#[test]
fn dispatch_route_precedes_file() {
    let mut routes = RouteTable::new();
    routes.insert("/page.html".to_string(), "from route".to_string(), "text/html".to_string());
    match handle_request("GET", "/page.html", "static", &routes) {
        Dispatch::Done(response) => {
            assert_eq!(response.status, 200);
            match response.body {
                Body::Text(text) => assert_eq!(text, "from route"),
                _ => panic!("expected an in-memory body"),
            }
        }
        Dispatch::Probe(_) => panic!("the route table must win over the filesystem"),
    }
}

// A request with a recognized method but no Host header answers the
// fixed 400 response, which carries no body.
#[test]
fn connection_missing_host_is_400() {
    let routes = RouteTable::new();
    let request = "GET / HTTP/1.1\r\n\r\n";
    assert!(matches!(
        handle_connection(request, "static", &routes),
        ConnectionPlan::BadRequest
    ));
    let response = bad_request_response();
    assert_eq!(response, "HTTP/1.1 400 Bad Request\r\nContent-Length: 0\r\n\r\n");
    assert!(response.contains("HTTP/1.1 400 Bad Request"));
}

// An empty-but-present Host value is not absence: the check passes and
// the request is dispatched.
#[test]
fn connection_empty_host_value_passes_check() {
    let mut routes = RouteTable::new();
    routes.insert("/a".to_string(), "body".to_string(), "text/plain".to_string());
    let request = "GET /a HTTP/1.1\r\nHost: \r\n\r\n";
    let response = match handle_connection(request, "static", &routes) {
        ConnectionPlan::Done(response) => response,
        _ => panic!("an empty Host value must pass the check"),
    };
    assert_eq!(response.status, 200);
}

// A garbage request line parses to an empty method, which skips the
// Host check and reaches dispatch, where it answers 405.
#[test]
fn connection_empty_method_reaches_dispatch() {
    let routes = RouteTable::new();
    let request = "garbage\r\n\r\n";
    let response = match handle_connection(request, "static", &routes) {
        ConnectionPlan::Done(response) => response,
        _ => panic!("a malformed request line must reach dispatch"),
    };
    assert_eq!(response.status, 405);
}

// Content-type resolution by extension, leading dots and directory dots
// included.
#[test]
fn content_type_by_extension() {
    assert_eq!(content_type_for("index.html"), "text/html");
    assert_eq!(content_type_for("a/b/style.css"), "text/css");
    assert_eq!(content_type_for("notes.txt"), "application/octet-stream");
    assert_eq!(content_type_for("noext"), "application/octet-stream");
    assert_eq!(content_type_for(".css"), "application/octet-stream");
    assert_eq!(content_type_for("a.tar.gz"), "application/octet-stream");
    assert_eq!(content_type_for("dir.d/file"), "application/octet-stream");
    assert_eq!(content_type_for("pic.html.bak"), "application/octet-stream");
    // The extension is read off the file name, which ignores trailing
    // slashes.
    assert_eq!(content_type_for("dir.html/"), "text/html");
    assert_eq!(content_type_for("plain/"), "application/octet-stream");
}

// The candidate path: root substitution, the single leading slash
// stripped, and the join onto the base directory.
#[test]
fn candidate_path_rules() {
    let routes = RouteTable::new();
    let candidate = |path: &str, base: &str| match handle_request("GET", path, base, &routes) {
        Dispatch::Probe(probe) => probe.candidate,
        Dispatch::Done(_) => panic!("expected a static-file probe"),
    };
    assert_eq!(candidate("/", "static"), "static/index.html");
    assert_eq!(candidate("/a/b.css", "static"), "static/a/b.css");
    assert_eq!(candidate("/a.css", "static/"), "static/a.css");
    assert_eq!(candidate("/a.css", ""), "a.css");
    // Exactly one leading slash is stripped; the rest of the path stays.
    assert_eq!(candidate("//x", "static"), "static//x");
}

// The exact wire form of a response head.
#[test]
fn response_head_format() {
    let mut routes = RouteTable::new();
    routes.insert("/a".to_string(), "body".to_string(), "application/json".to_string());
    let response = match handle_request("GET", "/a", "", &routes) {
        Dispatch::Done(response) => response,
        Dispatch::Probe(_) => panic!("expected a finished response"),
    };
    assert_eq!(
        response_head(&response),
        "HTTP/1.1 200 OK\r\nContent-Type: application/json\r\n\r\n"
    );

    let probe = match handle_request("GET", "/missing", "", &routes) {
        Dispatch::Probe(probe) => probe,
        Dispatch::Done(_) => panic!("expected a static-file probe"),
    };
    let not_found = finish_static(probe, false);
    assert_eq!(
        response_head(&not_found),
        "HTTP/1.1 404 Not Found\r\nContent-Type: text/plain\r\n\r\n"
    );
}

// The route table keeps the last registration for a path.
#[test]
fn route_table_last_registration_wins() {
    let mut routes = RouteTable::new();
    routes.insert("/a".to_string(), "one".to_string(), "text/plain".to_string());
    routes.insert("/a".to_string(), "two".to_string(), "text/plain".to_string());
    let (body, _) = routes.get("/a").expect("the route must be present");
    assert_eq!(body, "two");
    assert!(routes.get("/b").is_none());
}
