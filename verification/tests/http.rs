use workpool::http::filename;
use workpool::http::format_response;
use workpool::http::needs_delay;
use workpool::http::parse_content_length;
use workpool::http::route;
use workpool::http::split_header_line;
use workpool::http::status_line;
use workpool::http::str_eq;
use workpool::http::trim_line;
use workpool::http::usize_to_string;
use workpool::http::Route;

#[test]
fn root_request_yields_200_with_exact_content_length() {
    let r = route("GET / HTTP/1.1");
    assert_eq!(r, Route::Root);
    assert!(!needs_delay(r));
    assert_eq!(status_line(r), "HTTP/1.1 200 OK");
    assert_eq!(filename(r), "hello.html");

    let body = "<!DOCTYPE html><html><body>Hello!</body></html>";
    let resp = format_response(status_line(r), body);
    assert!(resp.starts_with("HTTP/1.1 200 OK\r\n"));
    // the declared length matches the payload's byte length exactly
    let headers_end = resp.find("\r\n\r\n").unwrap();
    let head = &resp[..headers_end];
    let cl_line = head
        .lines()
        .find(|l| l.starts_with("Content-Length:"))
        .unwrap();
    let declared: usize = cl_line["Content-Length:".len()..].trim().parse().unwrap();
    let payload = &resp[headers_end + 4..];
    assert_eq!(payload, body);
    assert_eq!(declared, payload.len());
}

#[test]
fn unrecognized_request_yields_404_with_not_found_payload() {
    let r = route("GET /missing HTTP/1.1");
    assert_eq!(r, Route::NotFound);
    assert_eq!(status_line(r), "HTTP/1.1 404 NOT FOUND");
    assert_eq!(filename(r), "404.html");
    let resp = format_response(status_line(r), "Oops");
    assert_eq!(resp, "HTTP/1.1 404 NOT FOUND\r\nContent-Length: 4\r\n\r\nOops");
}

#[test]
fn sleep_request_is_delayed_200() {
    let r = route("GET /sleep HTTP/1.1");
    assert_eq!(r, Route::Sleep);
    assert!(needs_delay(r));
    assert_eq!(status_line(r), "HTTP/1.1 200 OK");
    assert_eq!(filename(r), "hello.html");
}

#[test]
fn routing_is_exact_on_the_request_line() {
    assert_eq!(route("GET / HTTP/1.0"), Route::NotFound);
    assert_eq!(route("POST / HTTP/1.1"), Route::NotFound);
    assert_eq!(route("GET /sleep HTTP/1.1 "), Route::NotFound);
    assert_eq!(route(""), Route::NotFound);
}

#[test]
fn trim_line_strips_both_ends() {
    assert_eq!(trim_line("GET / HTTP/1.1\r\n"), "GET / HTTP/1.1");
    assert_eq!(trim_line("  \tabc  \r\n"), "abc");
    assert_eq!(trim_line("abc"), "abc");
    assert_eq!(trim_line(""), "");
    assert_eq!(trim_line(" \t\r\n"), "");
    assert_eq!(trim_line("a b"), "a b");
}

#[test]
fn header_lines_split_at_first_colon() {
    let (name, value) = split_header_line("Content-Length: 5").unwrap();
    assert_eq!(name, "Content-Length");
    assert_eq!(value, " 5");

    let (name, value) = split_header_line("a:b:c").unwrap();
    assert_eq!(name, "a");
    assert_eq!(value, "b:c");

    let (name, value) = split_header_line("").unwrap();
    assert_eq!(name, "ENDHEADER");
    assert_eq!(value, "");

    assert!(split_header_line("no colon here").is_none());
}

#[test]
fn content_length_values_parse_as_digits() {
    assert_eq!(parse_content_length("0"), Some(0));
    assert_eq!(parse_content_length("42"), Some(42));
    assert_eq!(parse_content_length("+7"), Some(7));
    assert_eq!(parse_content_length(""), None);
    assert_eq!(parse_content_length("+"), None);
    assert_eq!(parse_content_length(" 5"), None);
    assert_eq!(parse_content_length("5 "), None);
    assert_eq!(parse_content_length("12a"), None);
    assert_eq!(parse_content_length("-3"), None);
    assert_eq!(parse_content_length("99999999999999999999999999999999"), None);
    let max = format!("{}", usize::MAX);
    assert_eq!(parse_content_length(&max), Some(usize::MAX));
}

#[test]
fn decimal_rendering_is_exact() {
    assert_eq!(usize_to_string(0), "0");
    assert_eq!(usize_to_string(7), "7");
    assert_eq!(usize_to_string(10), "10");
    assert_eq!(usize_to_string(200), "200");
    assert_eq!(usize_to_string(90210), "90210");
    assert_eq!(usize_to_string(usize::MAX), format!("{}", usize::MAX));
}

#[test]
fn string_equality_is_by_characters() {
    assert!(str_eq("", ""));
    assert!(str_eq("GET / HTTP/1.1", "GET / HTTP/1.1"));
    assert!(!str_eq("GET / HTTP/1.1", "GET / HTTP/1.2"));
    assert!(!str_eq("abc", "ab"));
    assert!(str_eq("héllo", "héllo"));
    assert!(!str_eq("héllo", "hello"));
}

#[test]
fn empty_body_response() {
    let resp = format_response("HTTP/1.1 200 OK", "");
    assert_eq!(resp, "HTTP/1.1 200 OK\r\nContent-Length: 0\r\n\r\n");
}
