//! Route selection for the three served request lines.

use vstd::prelude::*;
use vstd::string::StringSliceAdditionalSpecFns;

verus! {

/// The routes the server distinguishes.
#[derive(Clone, Copy, Debug, PartialEq, Eq, Structural)]
pub enum Route {
    /// `GET / HTTP/1.1`: the greeting page.
    Root,
    /// `GET /sleep HTTP/1.1`: the greeting page after a deliberate delay.
    Sleep,
    /// Anything else: the not-found page.
    NotFound,
}

/// What `route_for` decides, as a function of the request line.
pub open spec fn spec_route(line: Seq<char>) -> Route {
    if line == "GET / HTTP/1.1"@ {
        Route::Root
    } else if line == "GET /sleep HTTP/1.1"@ {
        Route::Sleep
    } else {
        Route::NotFound
    }
}

/// String equality over the views.
fn str_eq(a: &str, b: &str) -> (r: bool)
    ensures
        r == (a@ == b@),
{
    let a_owned = a.to_owned();
    let b_owned = b.to_owned();
    a_owned == b_owned
}

/// Picks the route for one request line.
pub fn route_for(request_line: &str) -> (r: Route)
    ensures
        r == spec_route(request_line@),
{
    if str_eq(request_line, "GET / HTTP/1.1") {
        Route::Root
    } else if str_eq(request_line, "GET /sleep HTTP/1.1") {
        Route::Sleep
    } else {
        Route::NotFound
    }
}

/// The status line each route answers with.
pub open spec fn spec_status_line(route: Route) -> Seq<char> {
    match route {
        Route::Root => "HTTP/1.1 200 OK"@,
        Route::Sleep => "HTTP/1.1 200 OK"@,
        Route::NotFound => "HTTP/1.1 404 NOT FOUND"@,
    }
}

/// The status line for one route.
pub fn status_line(route: Route) -> (s: &'static str)
    ensures
        s@ == spec_status_line(route),
{
    match route {
        Route::Root => "HTTP/1.1 200 OK",
        Route::Sleep => "HTTP/1.1 200 OK",
        Route::NotFound => "HTTP/1.1 404 NOT FOUND",
    }
}

/// The file each route serves.
pub open spec fn spec_file_name(route: Route) -> Seq<char> {
    match route {
        Route::Root => "hello.html"@,
        Route::Sleep => "hello.html"@,
        Route::NotFound => "404.html"@,
    }
}

/// The name of the file served for one route.
pub fn file_name(route: Route) -> (s: &'static str)
    ensures
        s@ == spec_file_name(route),
{
    match route {
        Route::Root => "hello.html",
        Route::Sleep => "hello.html",
        Route::NotFound => "404.html",
    }
}

/// How long a route deliberately sleeps before answering, in seconds.
pub open spec fn spec_delay_seconds(route: Route) -> u64 {
    match route {
        Route::Sleep => 5,
        _ => 0,
    }
}

/// The deliberate delay for one route, in seconds.
pub fn delay_seconds(route: Route) -> (n: u64)
    ensures
        n == spec_delay_seconds(route),
{
    match route {
        Route::Sleep => 5,
        Route::Root => 0,
        Route::NotFound => 0,
    }
}

/// The character a decimal digit prints as.
pub open spec fn digit_char(d: nat) -> char
    recommends
        d < 10,
{
    if d == 0 {
        '0'
    } else if d == 1 {
        '1'
    } else if d == 2 {
        '2'
    } else if d == 3 {
        '3'
    } else if d == 4 {
        '4'
    } else if d == 5 {
        '5'
    } else if d == 6 {
        '6'
    } else if d == 7 {
        '7'
    } else if d == 8 {
        '8'
    } else {
        '9'
    }
}

/// The decimal rendering of a number, most significant digit first,
/// without leading zeros (a lone zero for zero itself).
pub open spec fn spec_decimal(n: nat) -> Seq<char>
    decreases n,
{
    if n < 10 {
        seq![digit_char(n)]
    } else {
        spec_decimal(n / 10) + seq![digit_char(n % 10)]
    }
}

/// One decimal digit as a string.
fn digit_str(d: u64) -> (s: &'static str)
    requires
        d < 10,
    ensures
        s@ == seq![digit_char(d as nat)],
{
    proof {
        reveal_strlit("0");
        reveal_strlit("1");
        reveal_strlit("2");
        reveal_strlit("3");
        reveal_strlit("4");
        reveal_strlit("5");
        reveal_strlit("6");
        reveal_strlit("7");
        reveal_strlit("8");
        reveal_strlit("9");
    }
    let s = if d == 0 {
        "0"
    } else if d == 1 {
        "1"
    } else if d == 2 {
        "2"
    } else if d == 3 {
        "3"
    } else if d == 4 {
        "4"
    } else if d == 5 {
        "5"
    } else if d == 6 {
        "6"
    } else if d == 7 {
        "7"
    } else if d == 8 {
        "8"
    } else {
        "9"
    };
    proof {
        assert(s@ =~= seq![digit_char(d as nat)]);
    }
    s
}

/// Renders a number in decimal.
pub fn decimal_string(n: u64) -> (s: String)
    ensures
        s@ == spec_decimal(n as nat),
    decreases n,
{
    if n < 10 {
        String::from_str(digit_str(n))
    } else {
        let mut s = decimal_string(n / 10);
        s.append(digit_str(n % 10));
        proof {
            assert(s@ =~= spec_decimal(n as nat));
        }
        s
    }
}

/// The full response for one status line and body: the status line,
/// a Content-Length header carrying the body's length in bytes, a
/// blank line, and the body.
pub open spec fn spec_response(status: Seq<char>, body: Seq<char>, body_bytes: nat) -> Seq<char> {
    status + "\r\nContent-Length: "@ + spec_decimal(body_bytes) + "\r\n\r\n"@ + body
}

/// Assembles the response for one status line and body.
pub fn build_response(status: &str, body: &str) -> (r: String)
    ensures
        r@ == spec_response(status@, body@, body.spec_bytes().len() as usize as nat),
{
    let mut r = String::from_str(status);
    r.append("\r\nContent-Length: ");
    let length = body.len();
    let digits = decimal_string(length as u64);
    r.append(digits.as_str());
    r.append("\r\n\r\n");
    r.append(body);
    proof {
        assert(r@ =~= spec_response(status@, body@, body.spec_bytes().len() as usize as nat));
    }
    r
}

} // verus!
