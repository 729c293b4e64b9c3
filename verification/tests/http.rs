use hyper::header::{ContentLength, Date, HttpDate, Location, Server};
use hyper::method::Method;
use hyper::status::StatusCode;
use hyper::uri::RequestUri;
use hyper::version::HttpVersion;
use time::Tm;
use tipt_node::headers::has_utc_ranges;
use tipt_node::http::{
    handle_http, handle_http_at, handle_http_dated, html_error, refuse, write_html_error, write_html_error_at,
    write_html_error_dated, HttpAnswer, Response,
};

fn time_of_day() -> Tm {
    Tm {
        tm_sec: 37,
        tm_min: 49,
        tm_hour: 8,
        tm_mday: 6,
        tm_mon: 10,
        tm_year: 94,
        tm_wday: 0,
        tm_yday: 309,
        tm_isdst: 0,
        tm_utcoff: 0,
        tm_nsec: 0,
    }
}

fn text(bytes: Vec<u8>) -> String {
    String::from_utf8(bytes).unwrap()
}

fn page(status: &str, server: &str) -> String {
    format!(
        "<!DOCTYPE html>
<html>
    <head>
        <title>{0}</title>
        <meta charset='utf-8' />
    </head>
    <body style='font-family: monospace'>
        <center>
            <h1>{0}</h1>
            <hr>
            {1}
        </center>
    </body>
</html>",
        status, server
    )
}

fn answer(version: &str, status: &str, date: &str) -> String {
    let page = page(status, "Tipt node-rs/0.1.0");
    format!(
        "{} {}\r\nContent-Type: text/html; charset=utf-8\r\nServer: Tipt node-rs/0.1.0\r\nDate: {}\r\nContent-Length: {}\r\n\r\n{}",
        version,
        status,
        date,
        page.len(),
        page
    )
}

fn path(path: &str) -> RequestUri {
    RequestUri::AbsolutePath(path.to_string())
}

#[test]
fn requests_are_refused() {
    let cases = [
        (Method::Post, path("/api/forward"), StatusCode::NotImplemented, "501 Not Implemented"),
        (Method::Get, path("/api/public_key"), StatusCode::NotImplemented, "501 Not Implemented"),
        (Method::Get, path("/api/forward"), StatusCode::NotFound, "404 Not Found"),
        (Method::Post, path("/api/public_key"), StatusCode::NotFound, "404 Not Found"),
        (Method::Get, path("/"), StatusCode::NotFound, "404 Not Found"),
        (Method::Put, path("/api/forward"), StatusCode::NotFound, "404 Not Found"),
        (Method::Get, path("/api/forward/"), StatusCode::NotFound, "404 Not Found"),
        (Method::Options, RequestUri::Star, StatusCode::BadRequest, "400 Bad Request"),
        (
            Method::Connect,
            RequestUri::Authority("example.com".to_string()),
            StatusCode::BadRequest,
            "400 Bad Request",
        ),
    ];
    for (method, uri, status, reason) in cases {
        let subject = (method, uri);
        assert_eq!(refuse(&subject), status);
        let bytes =
            handle_http_at(true, &subject, HttpVersion::Http10, "0.1.0", time_of_day()).unwrap();
        assert_eq!(
            text(bytes),
            answer("HTTP/1.0", reason, "Sun, 06 Nov 1994 08:49:37 GMT")
        );
        assert!(
            handle_http_at(false, &subject, HttpVersion::Http10, "0.1.0", time_of_day()).is_none()
        );
        match handle_http(true, &subject, HttpVersion::Http11, "0.1.0") {
            HttpAnswer::Bytes(bytes) => {
                let start = format!("HTTP/1.1 {}\r\n", reason);
                assert!(text(bytes).starts_with(&start));
            }
            _ => unreachable!(),
        }
        assert!(matches!(
            handle_http(false, &subject, HttpVersion::Http11, "0.1.0"),
            HttpAnswer::Dropped
        ));
    }
}

#[test]
fn error_pages() {
    let versions = [
        (HttpVersion::Http09, "HTTP/0.9"),
        (HttpVersion::Http10, "HTTP/1.0"),
        (HttpVersion::Http11, "HTTP/1.1"),
        (HttpVersion::Http20, "HTTP/2.0"),
    ];
    for (version, name) in versions {
        let bytes = write_html_error_at(version, StatusCode::ImATeapot, "0.1.0", time_of_day());
        assert_eq!(
            text(bytes),
            answer(name, "418 I'm a teapot", "Sun, 06 Nov 1994 08:49:37 GMT")
        );
    }
    let bytes = text(write_html_error(HttpVersion::Http11, StatusCode::Ok, "0.1.0").unwrap());
    assert!(bytes.starts_with("HTTP/1.1 200 OK\r\nContent-Type: text/html; charset=utf-8\r\n"));
    assert!(bytes.ends_with(&page("200 OK", "Tipt node-rs/0.1.0")));
}

#[test]
fn error_pages_need_a_time_that_can_be_written() {
    let (version, status) = (HttpVersion::Http11, StatusCode::NotFound);
    let bytes = write_html_error_dated(version, status, "0.1.0", time_of_day()).unwrap();
    assert_eq!(
        text(bytes),
        answer("HTTP/1.1", "404 Not Found", "Sun, 06 Nov 1994 08:49:37 GMT")
    );
    let mut now = time_of_day();
    now.tm_year = i32::MAX;
    assert!(write_html_error_dated(version, status, "0.1.0", now).is_none());
    assert!(write_html_error(version, status, "0.1.0").is_some());
}

#[test]
fn error_responses_can_be_changed_before_they_are_written() {
    let mut response = html_error(HttpVersion::Http11, StatusCode::NotFound, "9");
    response.headers_mut().set(Server("other".to_string()));
    *response.status_mut() = StatusCode::BadRequest;
    let bytes = text(response.write_at(time_of_day()));
    assert!(bytes.starts_with(
        "HTTP/1.1 400 Bad Request\r\nContent-Type: text/html; charset=utf-8\r\nServer: other\r\nDate: "
    ));
    assert!(bytes.ends_with(&page("404 Not Found", "Tipt node-rs/9")));
}

#[test]
fn dates() {
    let months = [
        "Jan", "Feb", "Mar", "Apr", "May", "Jun", "Jul", "Aug", "Sep", "Oct", "Nov", "Dec",
    ];
    let days = ["Sun", "Mon", "Tue", "Wed", "Thu", "Fri", "Sat"];
    for m in 0..12 {
        for d in 0..7 {
            let mut now = time_of_day();
            now.tm_mon = m;
            now.tm_wday = d;
            now.tm_year = 100 + m;
            now.tm_mday = 20 + m;
            now.tm_sec = 60;
            assert!(has_utc_ranges(&now));
            let bytes = text(Response::new(vec![]).write_at(now));
            assert_eq!(
                bytes,
                format!(
                    "HTTP/1.1 200 OK\r\nDate: {}, {} {} {} 08:49:60 GMT\r\nContent-Length: 0\r\n\r\n",
                    days[d as usize],
                    20 + m,
                    months[m as usize],
                    2000 + m
                )
            );
        }
    }
}

#[test]
fn years_before_the_era() {
    for (year, name) in [(-1900, "0"), (-1901, "-1"), (-2024, "-124"), (0, "1900")] {
        let mut now = time_of_day();
        now.tm_year = year;
        let bytes = text(Response::new(vec![]).write_at(now));
        let date = format!("Date: Sun, 06 Nov {} 08:49:37 GMT\r\n", name);
        assert!(bytes.contains(&date), "{}", bytes);
    }
}

#[test]
fn responses_need_a_time_that_can_be_written() {
    let mut never = time_of_day();
    never.tm_year = i32::MAX;
    assert!(Response::new(vec![]).write_dated(never).is_none());
    assert_eq!(
        text(Response::new(vec![]).write_dated(time_of_day()).unwrap()),
        "HTTP/1.1 200 OK\r\nDate: Sun, 06 Nov 1994 08:49:37 GMT\r\nContent-Length: 0\r\n\r\n"
    );
    let mut response = Response::new(vec![]);
    response.headers_mut().set(Date(HttpDate(time_of_day())));
    assert!(response.write_dated(never).is_some());

    let subject = (Method::Get, path("/"));
    let answer = |known: bool, now: Tm| {
        handle_http_dated(known, &subject, HttpVersion::Http11, "0.1.0", now)
    };
    assert!(matches!(answer(true, never), HttpAnswer::Undated));
    assert!(matches!(answer(true, time_of_day()), HttpAnswer::Bytes(_)));
    assert!(matches!(answer(false, never), HttpAnswer::Dropped));
    assert!(matches!(answer(false, time_of_day()), HttpAnswer::Dropped));
}

#[test]
fn each_header_is_written_once() {
    let mut response = Response::new(vec![]);
    response.headers_mut().set_raw("date", vec![b"a".to_vec()]);
    response.headers_mut().set_raw("DATE", vec![b"b".to_vec()]);
    response.headers_mut().set_raw("content-LENGTH", vec![b"9".to_vec()]);
    assert_eq!(
        text(response.write_at(time_of_day())),
        "HTTP/1.1 200 OK\r\nDATE: b\r\nContent-Length: 0\r\n\r\n"
    );
}

#[test]
fn a_date_that_is_there_is_kept() {
    let mut then = time_of_day();
    then.tm_hour = 23;
    let mut response = Response::new(b"abc".to_vec());
    response.headers_mut().set(Date(HttpDate(then)));
    assert_eq!(
        text(response.write().unwrap()),
        "HTTP/1.1 200 OK\r\nDate: Sun, 06 Nov 1994 23:49:37 GMT\r\nContent-Length: 3\r\n\r\nabc"
    );
    // names are compared regardless of case
    let mut response = Response::new(b"abc".to_vec());
    response.headers_mut().set_raw("dATE", vec![b"today".to_vec()]);
    assert_eq!(
        text(response.write().unwrap()),
        "HTTP/1.1 200 OK\r\ndATE: today\r\nContent-Length: 3\r\n\r\nabc"
    );
}

#[test]
fn the_length_of_the_body_is_always_right() {
    for n in [0, 1, 9, 10, 99, 100, 12345] {
        let mut response = Response::new(vec![b'x'; n]);
        response.headers_mut().set(ContentLength(77));
        let bytes = text(response.write_at(time_of_day()));
        assert_eq!(
            bytes,
            format!(
                "HTTP/1.1 200 OK\r\nContent-Length: {}\r\nDate: Sun, 06 Nov 1994 08:49:37 GMT\r\n\r\n{}",
                n,
                "x".repeat(n)
            )
        );
    }
}

#[test]
fn other_headers_are_kept() {
    let mut response = Response::new(vec![]);
    *response.version_mut() = HttpVersion::Http10;
    *response.status_mut() = StatusCode::SeeOther;
    response.headers_mut().set(Location("/a\r\nb".to_string()));
    assert_eq!(
        text(response.write_at(time_of_day())),
        "HTTP/1.0 303 See Other\r\nLocation: /a  b\r\nDate: Sun, 06 Nov 1994 08:49:37 GMT\r\nContent-Length: 0\r\n\r\n"
    );
}

#[test]
fn times_that_can_be_written() {
    assert!(has_utc_ranges(&time_of_day()));
    assert!(has_utc_ranges(&time::now_utc()));
    let mut now = time_of_day();
    now.tm_utcoff = 3600;
    assert!(!has_utc_ranges(&now));
    let mut now = time_of_day();
    now.tm_wday = 7;
    assert!(!has_utc_ranges(&now));
    let mut now = time_of_day();
    now.tm_mon = -1;
    assert!(!has_utc_ranges(&now));
    let mut now = time_of_day();
    now.tm_year = i32::MAX - 1899;
    assert!(!has_utc_ranges(&now));
    now.tm_year = i32::MAX - 1900;
    assert!(has_utc_ranges(&now));
    assert!(!has_utc_ranges(&time::empty_tm()));
}
