use rust_web_server::http::{build_response, decimal_string, delay_seconds, file_name, route_for, status_line, Route};

#[test]
fn root_request_routes_to_root() {
    assert_eq!(route_for("GET / HTTP/1.1"), Route::Root);
}

#[test]
fn sleep_request_routes_to_sleep() {
    assert_eq!(route_for("GET /sleep HTTP/1.1"), Route::Sleep);
}

#[test]
fn anything_else_is_not_found() {
    assert_eq!(route_for("GET /missing HTTP/1.1"), Route::NotFound);
    assert_eq!(route_for("POST / HTTP/1.1"), Route::NotFound);
    assert_eq!(route_for(""), Route::NotFound);
    assert_eq!(route_for("GET / HTTP/1.0"), Route::NotFound);
}

#[test]
fn status_lines_match_routes() {
    assert_eq!(status_line(Route::Root), "HTTP/1.1 200 OK");
    assert_eq!(status_line(Route::Sleep), "HTTP/1.1 200 OK");
    assert_eq!(status_line(Route::NotFound), "HTTP/1.1 404 NOT FOUND");
}

#[test]
fn file_names_match_routes() {
    assert_eq!(file_name(Route::Root), "hello.html");
    assert_eq!(file_name(Route::Sleep), "hello.html");
    assert_eq!(file_name(Route::NotFound), "404.html");
}

#[test]
fn only_the_sleep_route_delays() {
    assert_eq!(delay_seconds(Route::Root), 0);
    assert_eq!(delay_seconds(Route::Sleep), 5);
    assert_eq!(delay_seconds(Route::NotFound), 0);
}

#[test]
fn decimal_rendering_is_exact() {
    assert_eq!(decimal_string(0), "0");
    assert_eq!(decimal_string(7), "7");
    assert_eq!(decimal_string(10), "10");
    assert_eq!(decimal_string(105), "105");
    assert_eq!(decimal_string(9090), "9090");
    assert_eq!(decimal_string(u64::MAX), "18446744073709551615");
}

#[test]
fn response_carries_status_length_and_body() {
    let r = build_response("HTTP/1.1 200 OK", "hello");
    assert_eq!(r, "HTTP/1.1 200 OK\r\nContent-Length: 5\r\n\r\nhello");
}

#[test]
fn response_length_counts_bytes() {
    let r = build_response("HTTP/1.1 404 NOT FOUND", "");
    assert_eq!(r, "HTTP/1.1 404 NOT FOUND\r\nContent-Length: 0\r\n\r\n");
    let body = "caf\u{e9}";
    let r = build_response("HTTP/1.1 200 OK", body);
    assert_eq!(r, format!("HTTP/1.1 200 OK\r\nContent-Length: 5\r\n\r\n{}", body));
}
