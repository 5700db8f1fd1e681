use http_lsp::{parse_http_file, validate_url};

fn check_single(content: &str, method: &str, url: &str, headers: usize, body: Option<&str>) {
    let requests = parse_http_file(content);
    assert_eq!(requests.len(), 1);
    assert_eq!(requests[0].method, method);
    assert_eq!(requests[0].url, url);
    assert_eq!(requests[0].headers.len(), headers);
    assert_eq!(requests[0].body.as_deref(), body);
}

#[test]
fn parse_method_get() {
    check_single("GET http://example.com/api", "GET", "http://example.com/api", 0, None);
}

#[test]
fn parse_method_lowercase_get() {
    check_single("get http://example.com/api", "GET", "http://example.com/api", 0, None);
}

#[test]
fn parse_method_post() {
    check_single("POST http://example.com/api", "POST", "http://example.com/api", 0, None);
}

#[test]
fn parse_method_put() {
    check_single("PUT http://example.com/api", "PUT", "http://example.com/api", 0, None);
}

#[test]
fn parse_method_delete() {
    check_single("DELETE http://example.com/api", "DELETE", "http://example.com/api", 0, None);
}

#[test]
fn parse_method_patch() {
    check_single("PATCH http://example.com/api", "PATCH", "http://example.com/api", 0, None);
}

#[test]
fn parse_method_head() {
    check_single("HEAD http://example.com/api", "HEAD", "http://example.com/api", 0, None);
}

#[test]
fn parse_method_options() {
    check_single("OPTIONS http://example.com/api", "OPTIONS", "http://example.com/api", 0, None);
}

#[test]
fn test_parse_simple_get_with_header() {
    let content = "GET http://example.com/api\nAccept: application/json";
    let requests = parse_http_file(content);

    assert_eq!(requests.len(), 1);
    assert_eq!(requests[0].method, "GET");
    assert_eq!(requests[0].url, "http://example.com/api");
    assert_eq!(requests[0].headers.get("Accept"), Some(&"application/json".to_string()));
}

fn check_body(content: &str, method: &str, body: &str) {
    let requests = parse_http_file(content);
    assert_eq!(requests.len(), 1);
    assert_eq!(requests[0].method, method);
    assert_eq!(requests[0].body.as_deref(), Some(body));
}

#[test]
fn parse_request_with_json_body() {
    check_body(
        "POST http://example.com/api\nContent-Type: application/json\n\n{\"name\": \"test\"}",
        "POST",
        "{\"name\": \"test\"}",
    );
}

#[test]
fn parse_request_with_multiline_json_body() {
    check_body(
        "POST http://example.com/api\nContent-Type: application/json\n\n{\n  \"name\": \"John\",\n  \"email\": \"john@example.com\"\n}",
        "POST",
        "{\n  \"name\": \"John\",\n  \"email\": \"john@example.com\"\n}",
    );
}

#[test]
fn parse_request_with_xml_body() {
    check_body(
        "POST http://example.com/api\nContent-Type: application/xml\n\n<?xml version=\"1.0\"?>\n<request>\n  <name>Test</name>\n</request>",
        "POST",
        "<?xml version=\"1.0\"?>\n<request>\n  <name>Test</name>\n</request>",
    );
}

#[test]
fn test_parse_multiple_requests() {
    let content = "GET http://example.com/api/1\n\n###\n\nPOST http://example.com/api/2\nContent-Type: application/json\n\n{\"data\": \"value\"}";

    let requests = parse_http_file(content);

    assert_eq!(requests.len(), 2);
    assert_eq!(requests[0].method, "GET");
    assert_eq!(requests[0].url, "http://example.com/api/1");
    assert_eq!(requests[1].method, "POST");
    assert_eq!(requests[1].url, "http://example.com/api/2");

    let lines: Vec<&str> = content.lines().collect();
    let first_get_line = lines.iter().position(|l| l.trim().starts_with("GET")).expect("GET line not found");
    let first_post_line = lines.iter().position(|l| l.trim().starts_with("POST")).expect("POST line not found");
    assert_eq!(requests[0].line_number, first_get_line);
    assert_eq!(requests[1].line_number, first_post_line);
}

#[test]
fn two_blocks_scenario_exact_anchors_and_body() {
    let content = "GET http://example.com/api/1\n\n###\n\nPOST http://example.com/api/2\nContent-Type: application/json\n\n{\"data\": \"value\"}";
    let requests = parse_http_file(content);
    assert_eq!(requests.len(), 2);
    assert_eq!(requests[0].line_number, 0);
    assert_eq!(requests[0].body, None);
    assert_eq!(requests[1].line_number, 4);
    assert_eq!(requests[1].body.as_deref(), Some("{\"data\": \"value\"}"));
    assert_eq!(requests[1].headers.get("Content-Type"), Some(&"application/json".to_string()));
}

#[test]
fn test_parse_multiple_headers() {
    let content = "GET http://example.com/api\nAccept: application/json\nAuthorization: Bearer token123\nUser-Agent: Test/1.0\nX-Custom-Header: custom-value";

    let requests = parse_http_file(content);

    assert_eq!(requests.len(), 1);
    assert_eq!(requests[0].headers.len(), 4);
    assert_eq!(requests[0].headers.get("Accept"), Some(&"application/json".to_string()));
    assert_eq!(requests[0].headers.get("Authorization"), Some(&"Bearer token123".to_string()));
    assert_eq!(requests[0].headers.get("User-Agent"), Some(&"Test/1.0".to_string()));
    assert_eq!(requests[0].headers.get("X-Custom-Header"), Some(&"custom-value".to_string()));
}

#[test]
fn parse_comment_only_file() {
    assert_eq!(parse_http_file("# Just comments\n// More comments\n# No actual requests").len(), 0);
}

#[test]
fn parse_empty_file() {
    assert_eq!(parse_http_file("").len(), 0);
}

#[test]
fn parse_whitespace_only_file() {
    assert_eq!(parse_http_file("   \n   \n   ").len(), 0);
}

#[test]
fn test_parse_with_comments() {
    let content = "# This is a comment\n// Another comment\nGET http://example.com/api\nAccept: application/json";

    let requests = parse_http_file(content);

    assert_eq!(requests.len(), 1);
    assert_eq!(requests[0].method, "GET");
    assert_eq!(requests[0].url, "http://example.com/api");
}

#[test]
fn test_parse_with_leading_empty_lines() {
    let content = "\n\n\nGET http://example.com/api";

    let requests = parse_http_file(content);

    assert_eq!(requests.len(), 1);
    assert_eq!(requests[0].method, "GET");
}

#[test]
fn test_parse_request_with_query_params() {
    let content = "GET http://example.com/api?page=1&limit=10&sort=desc";
    let requests = parse_http_file(content);

    assert_eq!(requests.len(), 1);
    assert_eq!(requests[0].method, "GET");
    assert_eq!(requests[0].url, "http://example.com/api?page=1&limit=10&sort=desc");
}

#[test]
fn test_parse_tracks_line_numbers() {
    let content = "// Comment line 0\n\nGET http://example.com/api/1\n\n###\n\nPOST http://example.com/api/2";

    let requests = parse_http_file(content);

    assert_eq!(requests.len(), 2);
    let lines: Vec<&str> = content.lines().collect();
    let first_get_line = lines.iter().position(|l| l.trim().starts_with("GET")).expect("GET line not found");
    let first_post_line = lines.iter().position(|l| l.trim().starts_with("POST")).expect("POST line not found");

    assert_eq!(requests[0].line_number, first_get_line);
    assert_eq!(requests[1].line_number, first_post_line);
}

#[test]
fn parse_body_section_without_content_is_absent() {
    let requests = parse_http_file("POST http://example.com/api\nContent-Type: application/json\n\n");
    assert_eq!(requests.len(), 1);
    assert_eq!(requests[0].body.as_deref(), None);
}

#[test]
fn parse_without_body_section_is_absent() {
    let requests = parse_http_file("POST http://example.com/api\nContent-Type: application/json");
    assert_eq!(requests.len(), 1);
    assert_eq!(requests[0].body.as_deref(), None);
}

#[test]
fn parse_whitespace_only_body_is_absent() {
    let requests = parse_http_file("POST http://example.com/api\nContent-Type: text/plain\n\n   \n\t\n  ");
    assert_eq!(requests.len(), 1);
    assert_eq!(requests[0].body, None);
}

#[test]
fn test_parse_three_consecutive_requests() {
    let content = "GET http://example.com/api/1\n###\nPOST http://example.com/api/2\n###\nDELETE http://example.com/api/3";

    let requests = parse_http_file(content);

    assert_eq!(requests.len(), 3);
    assert_eq!(requests[0].method, "GET");
    assert_eq!(requests[1].method, "POST");
    assert_eq!(requests[2].method, "DELETE");

    let lines: Vec<&str> = content.lines().collect();
    assert_eq!(requests[0].line_number, lines.iter().position(|l| l.trim().starts_with("GET")).expect("GET line not found"));
    assert_eq!(requests[1].line_number, lines.iter().position(|l| l.trim().starts_with("POST")).expect("POST line not found"));
    assert_eq!(requests[2].line_number, lines.iter().position(|l| l.trim().starts_with("DELETE")).expect("DELETE line not found"));
}

#[test]
fn duplicate_header_last_write_wins() {
    let requests = parse_http_file("GET http://example.com/api\nAccept: text/plain\nX-A: 1\nAccept: application/json");
    assert_eq!(requests.len(), 1);
    assert_eq!(requests[0].headers.len(), 2);
    assert_eq!(requests[0].headers.get("Accept"), Some(&"application/json".to_string()));
    assert_eq!(requests[0].headers.get("X-A"), Some(&"1".to_string()));
}

#[test]
fn header_line_without_colon_is_ignored() {
    let requests = parse_http_file("GET http://example.com/api\nnot a header\nAccept: */*");
    assert_eq!(requests[0].headers.len(), 1);
    assert_eq!(requests[0].headers.get("Accept"), Some(&"*/*".to_string()));
}

#[test]
fn invalid_first_request_line_discards_block() {
    let requests = parse_http_file("GET ftp://example.com\nGET http://example.com/ok");
    assert_eq!(requests.len(), 0);
}

#[test]
fn undelimited_text_anchors_first_request_line() {
    let requests = parse_http_file("# intro\nnonsense line\n\nPUT https://example.com/x\n\nGET http://example.com/y");
    assert_eq!(requests.len(), 1);
    assert_eq!(requests[0].method, "PUT");
    assert_eq!(requests[0].line_number, 3);
    assert_eq!(requests[0].body.as_deref(), Some("GET http://example.com/y"));
}

#[test]
fn delimiters_bound_request_count() {
    let requests = parse_http_file("###\n###\nGET http://a.example\n###\n# nothing\n###");
    assert!(requests.len() <= 5);
    assert_eq!(requests.len(), 1);
    assert_eq!(requests[0].line_number, 2);
}

#[test]
fn reparse_is_identical() {
    let content = "GET http://example.com/a\nX: 1\n\nbody\n###\nPOST https://example.com/b";
    let a = parse_http_file(content);
    let b = parse_http_file(content);
    assert_eq!(a.len(), b.len());
    for i in 0..a.len() {
        assert_eq!(a[i].method, b[i].method);
        assert_eq!(a[i].url, b[i].url);
        assert_eq!(a[i].body, b[i].body);
        assert_eq!(a[i].line_number, b[i].line_number);
        assert_eq!(a[i].headers.len(), b[i].headers.len());
    }
}

#[test]
fn crlf_lines_are_split_like_str_lines() {
    let requests = parse_http_file("GET http://example.com/a\r\nAccept: x\r\n\r\nhello\r\n");
    assert_eq!(requests.len(), 1);
    assert_eq!(requests[0].headers.get("Accept"), Some(&"x".to_string()));
    assert_eq!(requests[0].body.as_deref(), Some("hello"));
}

fn accepts(url: &str) {
    let result = validate_url(url);
    assert!(result.is_ok(), "Expected '{}' to be valid, got: {:?}", url, result);
    assert_eq!(result.expect("URL validation should succeed"), url);
}

#[test]
fn validate_url_accepts_plain_http() {
    accepts("http://example.com");
}

#[test]
fn validate_url_accepts_plain_https() {
    accepts("https://example.com");
}

#[test]
fn validate_url_accepts_path() {
    accepts("http://example.com/path");
}

#[test]
fn validate_url_accepts_subdomain() {
    accepts("https://api.example.com/v1/users");
}

#[test]
fn validate_url_accepts_port() {
    accepts("http://localhost:8080");
}

#[test]
fn validate_url_accepts_port_and_query() {
    accepts("https://example.com:443/path?query=value");
}

fn rejects_scheme(url: &str, scheme: &str) {
    let result = validate_url(url);
    assert!(result.is_err(), "Expected '{}' to be rejected", url);
    assert!(result.unwrap_err().contains(scheme), "Error should mention the scheme");
}

#[test]
fn validate_url_rejects_file() {
    rejects_scheme("file:///etc/passwd", "file");
}

#[test]
fn validate_url_rejects_javascript() {
    rejects_scheme("javascript:alert('xss')", "javascript");
}

#[test]
fn validate_url_rejects_data() {
    rejects_scheme("data:text/html,<script>alert('xss')</script>", "data");
}

#[test]
fn validate_url_rejects_ftp() {
    rejects_scheme("ftp://example.com", "ftp");
}

#[test]
fn validate_url_rejects_ws() {
    rejects_scheme("ws://example.com", "ws");
}

#[test]
fn validate_url_rejects_wss() {
    rejects_scheme("wss://example.com", "wss");
}

#[test]
fn validate_url_rejects_malformed() {
    for url in ["not-a-url", "http://", "://example.com", "example.com"] {
        let result = validate_url(url);
        assert!(result.is_err(), "Expected '{}' to be rejected as malformed", url);
    }
}

#[test]
fn validate_url_scheme_message_is_exact() {
    assert_eq!(
        validate_url("ftp://example.com"),
        Err("Unsupported URL scheme: 'ftp'. Only http:// and https:// are allowed".to_string())
    );
}

#[test]
fn test_validate_url_rejects_excessively_long_urls() {
    let long_url = format!("http://example.com/{}", "a".repeat(2050));
    let result = validate_url(&long_url);
    assert!(result.is_err());
    assert!(result.unwrap_err().contains("too long"));
}

#[test]
fn validate_url_length_boundary() {
    let at_limit = format!("http://example.com/{}", "a".repeat(2048 - 19));
    assert_eq!(at_limit.len(), 2048);
    assert!(validate_url(&at_limit).is_ok());
    let over = format!("http://example.com/{}", "a".repeat(2049 - 19));
    assert_eq!(
        validate_url(&over),
        Err("URL too long: 2049 characters (max 2048)".to_string())
    );
}

#[test]
fn test_parse_skips_requests_with_invalid_urls() {
    let content = "GET file:///etc/passwd\n###\nPOST https://valid.com/api\nContent-Type: application/json\n\n{\"data\": \"value\"}";

    let requests = parse_http_file(content);

    assert_eq!(requests.len(), 1);
    assert_eq!(requests[0].method, "POST");
    assert_eq!(requests[0].url, "https://valid.com/api");
}

#[test]
fn test_parse_handles_javascript_url_attempt() {
    let content = "GET javascript:alert('xss')";
    let requests = parse_http_file(content);

    assert_eq!(requests.len(), 0);
}

#[test]
fn body_lines_are_kept_verbatim() {
    let requests = parse_http_file("POST http://example.com/a\n\n# heading\n// note\n  text  ");
    assert_eq!(requests.len(), 1);
    assert_eq!(requests[0].body.as_deref(), Some("# heading\n// note\n  text"));
}

#[test]
fn comment_lines_in_headers_are_skipped() {
    let requests = parse_http_file("GET http://example.com/a\n# note: not a header\nAccept: x");
    assert_eq!(requests[0].headers.len(), 1);
    assert_eq!(requests[0].headers.get("Accept"), Some(&"x".to_string()));
}

#[test]
fn unicode_whitespace_separates_tokens() {
    let requests = parse_http_file("\u{3000}get\u{a0}\thttp://example.com/a\u{2003}\n Name :  value \u{a0}");
    assert_eq!(requests.len(), 1);
    assert_eq!(requests[0].method, "GET");
    assert_eq!(requests[0].url, "http://example.com/a");
    assert_eq!(requests[0].headers.get("Name"), Some(&"value".to_string()));
}

#[test]
fn delimiter_with_text_after_it() {
    let requests = parse_http_file("GET http://example.com/a\n  ### second request\nPOST http://example.com/b");
    assert_eq!(requests.len(), 2);
    assert_eq!(requests[1].line_number, 2);
}

#[test]
fn method_without_target_is_not_a_request_line() {
    let requests = parse_http_file("GET\nDELETE http://example.com/x");
    assert_eq!(requests.len(), 1);
    assert_eq!(requests[0].method, "DELETE");
    assert_eq!(requests[0].line_number, 1);
}

fn block_lines(content: &str) -> Vec<Vec<char>> {
    content.lines().map(|l| l.chars().collect()).collect()
}

#[test]
fn block_whitespace_body_is_absent_not_empty() {
    let lines = block_lines("POST http://example.com/a\nX: 1\n\n   \n \t ");
    let request = http_lsp::parse_block_lines(&lines, 0, lines.len()).expect("a request");
    assert_eq!(request.body, None);
}

#[test]
fn block_duplicate_headers_keep_last_value() {
    let lines = block_lines("skipped\nGET http://example.com/a\nA: 1\nB: 2\nA: 3\n\nbody");
    let request = http_lsp::parse_block_lines(&lines, 0, lines.len()).expect("a request");
    assert_eq!(request.line_number, 1);
    assert_eq!(request.headers.get("A"), Some(&"3".to_string()));
    assert_eq!(request.headers.get("B"), Some(&"2".to_string()));
    assert_eq!(request.body.as_deref(), Some("body"));
    assert!(http_lsp::parse_block_lines(&lines, 2, lines.len()).is_none());
}
