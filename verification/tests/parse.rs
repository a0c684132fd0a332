use http_base::error::RequestParseError;
use http_base::method::Method;
use http_base::reader::LineReader;
use http_base::request::Request;

fn parse(input: &str) -> Result<Request<LineReader<'_>>, RequestParseError> {
    Request::create(LineReader::new(input))
}

fn header<'a, B>(request: &'a Request<B>, name: &str) -> Option<&'a str> {
    request.headers.get(name).map(|value| value.as_str())
}

#[test]
fn request_line_alone_gives_three_tokens_and_no_headers() {
    let input = "GET / HTTP/1.1\r\n\r\n";
    let request = parse(input).unwrap();
    assert!(matches!(request.method, Method::GET));
    assert_eq!(request.path, "/");
    assert_eq!(request.version, "HTTP/1.1");
    assert_eq!(request.headers.len(), 0);
    assert!(request.headers.is_empty());
    assert_eq!(request.body.consumed(), input.len());
    assert_eq!(request.body.rest(), "");
}

#[test]
fn three_tokens_of_any_spelling_are_kept() {
    let request = parse("frobnicate *?x=1 gopher/0.9\r\n\r\n").unwrap();
    assert!(matches!(request.method, Method::Other(ref verb) if verb == "frobnicate"));
    assert_eq!(request.path, "*?x=1");
    assert_eq!(request.version, "gopher/0.9");
    assert!(request.headers.is_empty());
}

#[test]
fn example_with_host_header() {
    let request = parse("GET /index.html HTTP/1.1\r\nHost: example.com\r\n\r\n").unwrap();
    assert!(matches!(request.method, Method::GET));
    assert_eq!(request.path, "/index.html");
    assert_eq!(request.version, "HTTP/1.1");
    assert_eq!(request.headers.len(), 1);
    assert_eq!(header(&request, "Host"), Some("example.com"));
}

#[test]
fn options_and_head_are_known() {
    let request = parse("OPTIONS * HTTP/1.1\r\n\r\n").unwrap();
    assert!(matches!(request.method, Method::OPTIONS));
    let request = parse("HEAD /x HTTP/1.0\r\n\r\n").unwrap();
    assert!(matches!(request.method, Method::HEAD));
}

#[test]
fn unrecognized_verb_is_preserved() {
    let request = parse("PATCH /x HTTP/1.0\r\n\r\n").unwrap();
    assert!(matches!(request.method, Method::Other(ref verb) if verb == "PATCH"));
    assert_eq!(request.path, "/x");
    assert_eq!(request.version, "HTTP/1.0");
}

#[test]
fn verb_match_minds_the_case() {
    let request = parse("get / HTTP/1.1\r\n\r\n").unwrap();
    assert!(matches!(request.method, Method::Other(ref verb) if verb == "get"));
    let request = parse("GETS / HTTP/1.1\r\n\r\n").unwrap();
    assert!(matches!(request.method, Method::Other(ref verb) if verb == "GETS"));
}

#[test]
fn continuation_is_appended_without_separator() {
    let request = parse("GET / HTTP/1.1\r\nX-Long: ab\r\n cd\r\n\r\n").unwrap();
    assert_eq!(header(&request, "X-Long"), Some("abcd"));
    assert_eq!(request.headers.len(), 1);
}

#[test]
fn continuation_may_start_with_a_tab_and_repeat() {
    let request = parse("GET / HTTP/1.1\r\nA: 1\r\n\t2 \r\n   3\r\nB: x\r\n y\r\n\r\n").unwrap();
    assert_eq!(header(&request, "A"), Some("123"));
    assert_eq!(header(&request, "B"), Some("xy"));
    assert_eq!(request.headers.len(), 2);
}

#[test]
fn continuation_goes_to_the_field_named_last() {
    let request = parse("GET / HTTP/1.1\r\nA: 1\r\nB: 2\r\nA: 3\r\n 4\r\n\r\n").unwrap();
    assert_eq!(header(&request, "A"), Some("34"));
    assert_eq!(header(&request, "B"), Some("2"));
}

#[test]
fn orphan_continuation_is_dropped() {
    let request = parse("GET / HTTP/1.1\r\n orphan\r\nHost: x\r\n\r\n").unwrap();
    assert_eq!(request.headers.len(), 1);
    assert_eq!(header(&request, "Host"), Some("x"));
    assert_eq!(header(&request, "orphan"), None);
    assert_eq!(header(&request, " orphan"), None);
}

#[test]
fn missing_path_fails() {
    assert!(parse("GET\r\n\r\n").is_err());
}

#[test]
fn missing_version_fails() {
    assert!(parse("GET /\r\n\r\n").is_err());
    assert!(parse("GET /\r\nHost: x\r\n\r\n").is_err());
}

#[test]
fn missing_method_fails() {
    assert!(parse("\r\n\r\n").is_err());
    assert!(parse("   \r\nGET / HTTP/1.1\r\n\r\n").is_err());
}

#[test]
fn empty_input_fails() {
    assert!(parse("").is_err());
}

#[test]
fn truncated_headers_succeed() {
    let request = parse("GET / HTTP/1.1\r\nHost: x").unwrap();
    assert!(matches!(request.method, Method::GET));
    assert_eq!(request.headers.len(), 1);
    assert_eq!(header(&request, "Host"), Some("x"));
    assert_eq!(request.body.rest(), "");
}

#[test]
fn input_may_end_after_the_request_line() {
    let request = parse("GET / HTTP/1.1").unwrap();
    assert_eq!(request.version, "HTTP/1.1");
    assert!(request.headers.is_empty());
    let request = parse("GET / HTTP/1.1\r\n").unwrap();
    assert!(request.headers.is_empty());
}

#[test]
fn bare_line_feeds_are_accepted() {
    let request = parse("GET /a HTTP/1.1\nHost: h\nAccept: */*\n\nbody").unwrap();
    assert_eq!(request.path, "/a");
    assert_eq!(header(&request, "Host"), Some("h"));
    assert_eq!(header(&request, "Accept"), Some("*/*"));
    assert_eq!(request.body.rest(), "body");
}

#[test]
fn body_is_left_unread() {
    let input = "GET / HTTP/1.1\r\nHost: x\r\n\r\nfirst\r\n\r\nsecond";
    let request = parse(input).unwrap();
    assert_eq!(request.headers.len(), 1);
    assert_eq!(request.body.rest(), "first\r\n\r\nsecond");
    assert_eq!(request.body.consumed(), "GET / HTTP/1.1\r\nHost: x\r\n\r\n".len());
}

#[test]
fn line_of_white_space_ends_the_headers() {
    let request = parse("GET / HTTP/1.1\r\nA: 1\r\n \t \r\nB: 2\r\n\r\n").unwrap();
    assert_eq!(request.headers.len(), 1);
    assert_eq!(header(&request, "B"), None);
    assert_eq!(request.body.rest(), "B: 2\r\n\r\n");
}

#[test]
fn header_without_colon_has_empty_value() {
    let request = parse("GET / HTTP/1.1\r\nNoColon\r\n\r\n").unwrap();
    assert_eq!(header(&request, "NoColon"), Some(""));
    assert_eq!(request.headers.len(), 1);
}

#[test]
fn header_value_is_cut_at_the_first_colon_and_trimmed() {
    let request = parse("GET / HTTP/1.1\r\nHost:   example.com:8080  \r\nEmpty:\r\n\r\n").unwrap();
    assert_eq!(header(&request, "Host"), Some("example.com:8080"));
    assert_eq!(header(&request, "Empty"), Some(""));
}

#[test]
fn header_name_is_kept_as_written() {
    let request = parse("GET / HTTP/1.1\r\nhost: a\r\nHost: b\r\nName : c\r\n: d\r\n\r\n").unwrap();
    assert_eq!(header(&request, "host"), Some("a"));
    assert_eq!(header(&request, "Host"), Some("b"));
    assert_eq!(header(&request, "HOST"), None);
    assert_eq!(header(&request, "Name "), Some("c"));
    assert_eq!(header(&request, "Name"), None);
    assert_eq!(header(&request, ""), Some("d"));
    assert_eq!(request.headers.len(), 4);
}

#[test]
fn repeated_header_overwrites() {
    let request = parse("GET / HTTP/1.1\r\nA: 1\r\nB: 2\r\nA: 3\r\n\r\n").unwrap();
    assert_eq!(header(&request, "A"), Some("3"));
    assert_eq!(request.headers.len(), 2);
}

#[test]
fn request_line_is_trimmed_and_cut_at_each_white_space() {
    let request = parse("  GET / HTTP/1.1  \r\n\r\n").unwrap();
    assert!(matches!(request.method, Method::GET));
    assert_eq!(request.version, "HTTP/1.1");
    let request = parse("GET  / HTTP/1.1\r\n\r\n").unwrap();
    assert_eq!(request.path, "");
    assert_eq!(request.version, "/");
    let request = parse("GET\t/\u{a0}HTTP/1.1 extra\r\n\r\n").unwrap();
    assert_eq!(request.path, "/");
    assert_eq!(request.version, "HTTP/1.1");
}

#[test]
fn summary_names_method_path_and_version() {
    let request = parse("GET /index.html HTTP/1.1\r\n\r\n").unwrap();
    assert_eq!(request.summary(), "Method: GET Path: /index.html Version: HTTP/1.1");
    let request = parse("PATCH /x HTTP/1.0\r\n\r\n").unwrap();
    assert_eq!(request.summary(), "Method: PATCH Path: /x Version: HTTP/1.0");
}

#[test]
fn method_is_written_as_its_verb() {
    assert_eq!(Method::GET.as_str(), "GET");
    assert_eq!(Method::OPTIONS.as_str(), "OPTIONS");
    assert_eq!(Method::HEAD.as_str(), "HEAD");
    assert_eq!(Method::Other("PUT".to_string()).as_str(), "PUT");
    assert_eq!(Method::from_token("HEAD").as_str(), "HEAD");
    assert_eq!(Method::from_token("Head").as_str(), "Head");
    assert!(matches!(Method::from_token("GET"), Method::GET));
    assert!(matches!(Method::from_token(""), Method::Other(ref verb) if verb.is_empty()));
}

#[test]
fn error_describes_itself() {
    let error = RequestParseError::new();
    assert_eq!(error.description(), "error parsing http request");
    assert_eq!(parse("GET\r\n\r\n").err().unwrap().description(), "error parsing http request");
}

#[test]
fn parsed_values_carry_no_white_space_at_their_ends() {
    let request =
        parse(" \tHEAD\u{2003}/p\u{a0}v1 \r\nA: \u{3000}x y\u{85}\r\n \t z  \r\nB:\t\r\n\r\n").unwrap();
    assert_eq!(request.method.as_str(), "HEAD");
    assert_eq!(request.path, "/p");
    assert_eq!(request.version, "v1");
    assert_eq!(header(&request, "A"), Some("x yz"));
    assert_eq!(header(&request, "B"), Some(""));
    for (_, value) in request.headers.entries() {
        assert_eq!(value.trim(), value);
    }
}
