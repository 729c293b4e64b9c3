//! HTTP handling.
use hyper::header::Headers;
use hyper::method::Method;
use hyper::status::StatusCode;
use hyper::uri::RequestUri;
use hyper::version::HttpVersion;
use time::Tm;
use vstd::prelude::*;
use vstd::string::{StrSliceExecFns, StringExecFns};

use crate::headers;
use crate::numerals;
use crate::server;

verus! {

/// The status codes of `hyper`, whose variants verified code tells apart.
#[verifier::external_type_specification]
pub struct ExStatusCode(hyper::status::StatusCode);

/// The HTTP versions of `hyper`, whose variants verified code tells apart.
#[verifier::external_type_specification]
pub struct ExHttpVersion(hyper::version::HttpVersion);

/// The request methods of `hyper`, whose variants verified code tells apart.
#[verifier::external_type_specification]
pub struct ExMethod(hyper::method::Method);

/// The request targets of `hyper`, whose variants verified code tells apart.
#[verifier::external_type_specification]
pub struct ExRequestUri(hyper::uri::RequestUri);

/// The URLs that a request target can hold.
#[verifier::external_type_specification]
#[verifier::external_body]
pub struct ExUrl(hyper::Url);

/// The text of a status: its code and what the code is called.
pub uninterp spec fn status_text(status: StatusCode) -> Seq<char>;

/// Whether a text is that of a status, as far as the node sends it.
pub open spec fn is_known_text(status: StatusCode, text: Seq<char>) -> bool {
    match status {
        StatusCode::Ok => text == "200 OK"@,
        StatusCode::BadRequest => text == "400 Bad Request"@,
        StatusCode::NotFound => text == "404 Not Found"@,
        StatusCode::NotImplemented => text == "501 Not Implemented"@,
        _ => true,
    }
}

/// The `Display` of `hyper::status::StatusCode`: the code and its canonical reason, which is spelt
/// out for the codes that the node sends.
#[verifier::external_body]
fn status_to_text(status: &StatusCode) -> (r: String)
    ensures
        r@ == status_text(*status),
        is_known_text(*status, r@),
{
    status.to_string()
}

/// The text of an HTTP version.
pub open spec fn version_text(version: HttpVersion) -> Seq<char> {
    match version {
        HttpVersion::Http09 => "HTTP/0.9"@,
        HttpVersion::Http10 => "HTTP/1.0"@,
        HttpVersion::Http11 => "HTTP/1.1"@,
        HttpVersion::Http20 => "HTTP/2.0"@,
    }
}

/// The `Display` of `hyper::version::HttpVersion`.
#[verifier::external_body]
fn version_to_text(version: &HttpVersion) -> (r: String)
    ensures
        r@ == version_text(*version),
{
    version.to_string()
}

/// The header fields with those that every response carries: the date, unless there is one
/// already, and the length of the body.
pub open spec fn sent_fields(
    fields: Seq<headers::HeaderField>,
    body_length: nat,
    now: Tm,
) -> Seq<headers::HeaderField> {
    let dated = if headers::has_field(fields, "Date"@) {
        fields
    } else {
        headers::put_field(fields, headers::text_field("Date"@, headers::http_date(now)))
    };
    headers::put_field(
        dated,
        headers::text_field("Content-Length"@, numerals::decimal(body_length)),
    )
}

/// The bytes of a response: the status line, the header lines, an empty line and the body.
pub open spec fn response_bytes(
    version: HttpVersion,
    status: Seq<char>,
    fields: Seq<headers::HeaderField>,
    body: Seq<u8>,
    now: Tm,
) -> Seq<u8> {
    vstd::utf8::encode_utf8(version_text(version) + " "@ + status + "\r\n"@)
        + vstd::utf8::encode_utf8(
        headers::lines(sent_fields(fields, body.len(), now)) + "\r\n"@,
    ) + body
}

/// A simple HTTP response.
pub struct Response {
    body: Vec<u8>,
    version: HttpVersion,
    status: StatusCode,
    headers: Headers,
}

impl Response {
    /// The bytes of the body.
    pub closed spec fn body(&self) -> Seq<u8> {
        self.body@
    }

    /// The HTTP version.
    pub closed spec fn version(&self) -> HttpVersion {
        self.version
    }

    /// The status code.
    pub closed spec fn status(&self) -> StatusCode {
        self.status
    }

    /// The headers.
    pub closed spec fn headers(&self) -> Headers {
        self.headers
    }

    /// Creates a new HTTP response with the given body.
    pub fn new(body: Vec<u8>) -> (r: Response)
        ensures
            r.body() == body@,
            r.version() == HttpVersion::Http11,
            r.status() == StatusCode::Ok,
            headers::header_fields(r.headers()) == Seq::<headers::HeaderField>::empty(),
    {
        Response {
            body,
            version: HttpVersion::Http11,
            status: StatusCode::Ok,
            headers: Headers::new(),
        }
    }

    /// Returns a mutable reference to the version.
    pub fn version_mut(&mut self) -> (r: &mut HttpVersion)
        ensures
            *r == old(self).version(),
            final(self).version() == *final(r),
            final(self).body() == old(self).body(),
            final(self).status() == old(self).status(),
            final(self).headers() == old(self).headers(),
    {
        &mut self.version
    }

    /// Returns a mutable reference to the status code.
    pub fn status_mut(&mut self) -> (r: &mut StatusCode)
        ensures
            *r == old(self).status(),
            final(self).status() == *final(r),
            final(self).body() == old(self).body(),
            final(self).version() == old(self).version(),
            final(self).headers() == old(self).headers(),
    {
        &mut self.status
    }

    /// Returns a mutable reference to the headers.
    pub fn headers_mut(&mut self) -> (r: &mut Headers)
        ensures
            *r == old(self).headers(),
            final(self).headers() == *final(r),
            final(self).body() == old(self).body(),
            final(self).version() == old(self).version(),
            final(self).status() == old(self).status(),
    {
        &mut self.headers
    }

    /// The bytes of the response when it is written at the given time.
    pub open spec fn bytes_at(&self, now: Tm) -> Seq<u8> {
        response_bytes(
            self.version(),
            status_text(self.status()),
            headers::header_fields(self.headers()),
            self.body(),
            now,
        )
    }

    /// The bytes of the response when it is written at the given time. The time goes into the
    /// `Date` header, unless there is one already.
    pub fn write_at(self, now: Tm) -> (r: Vec<u8>)
        requires
            headers::printable(headers::header_fields(self.headers())),
            headers::has_field(headers::header_fields(self.headers()), "Date"@)
                || headers::is_utc_time(now),
        ensures
            r@ == self.bytes_at(now),
            is_known_text(self.status(), status_text(self.status())),
            headers::distinct_names(headers::header_fields(self.headers())),
    {
        let ghost before = headers::header_fields(self.headers());
        let Response { body, version, status, headers: mut fields } = self;
        if !headers::has_date(&fields) {
            proof {
                headers::lemma_put_field_printable(
                    headers::header_fields(fields),
                    headers::text_field("Date"@, headers::http_date(now)),
                );
            }
            headers::set_date(&mut fields, now);
        }
        proof {
            headers::lemma_put_field_printable(
                headers::header_fields(fields),
                headers::text_field("Content-Length"@, numerals::decimal(body@.len())),
            );
        }
        headers::set_content_length(&mut fields, body.len() as u64);

        let mut line = version_to_text(&version);
        line.append(" ");
        line.append(status_to_text(&status).as_str());
        line.append("\r\n");
        let mut text = match headers::headers_text(&fields) {
            Ok(text) => text,
            Err(_) => vstd::pervasive::unreached(),
        };
        text.append("\r\n");
        proof {
            let date = headers::text_field("Date"@, headers::http_date(now));
            let length = headers::text_field("Content-Length"@, numerals::decimal(body@.len()));
            headers::law_put_field_keeps_names_distinct(before, date);
            headers::law_put_field_keeps_names_distinct(before, length);
            headers::law_put_field_keeps_names_distinct(headers::put_field(before, date), length);
        }

        let mut bytes = line.as_str().as_bytes_vec();
        let mut rest = text.as_str().as_bytes_vec();
        let mut body = body;
        bytes.append(&mut rest);
        bytes.append(&mut body);
        bytes
    }

    /// Whether these are the bytes of the response when the clock shows the given time: there are
    /// none if and only if there is no `Date` header and that is no time that can be written.
    pub open spec fn written_at(&self, bytes: Option<Vec<u8>>, now: Tm) -> bool {
        &&& (bytes is Some) == (headers::has_field(
            headers::header_fields(self.headers()),
            "Date"@,
        ) || headers::is_utc_time(now))
        &&& bytes matches Some(bytes) ==> bytes@ == self.bytes_at(now)
    }

    /// The bytes of the response, given the time that the clock shows; `None` if and only if there
    /// is no `Date` header and that is no time that can be written.
    pub fn write_dated(self, now: Tm) -> (r: Option<Vec<u8>>)
        requires
            headers::printable(headers::header_fields(self.headers())),
        ensures
            self.written_at(r, now),
            (r is Some) == (headers::has_field(headers::header_fields(self.headers()), "Date"@)
                || headers::is_utc_time(now)),
            r matches Some(bytes) ==> bytes@ == self.bytes_at(now),
            r is Some ==> is_known_text(self.status(), status_text(self.status())),
            r is Some ==> headers::distinct_names(headers::header_fields(self.headers())),
    {
        if headers::has_date(&self.headers) || headers::has_utc_ranges(&now) {
            Some(self.write_at(now))
        } else {
            None
        }
    }

    /// The bytes of the response. The `Date` header is the time on the clock, unless there is one
    /// already; `None` where there is none and the clock shows no time that can be written. What
    /// the clock shows is not known beforehand.
    pub fn write(self) -> (r: Option<Vec<u8>>)
        requires
            headers::printable(headers::header_fields(self.headers())),
        ensures
            exists|now: Tm|
                {
                    &&& headers::is_reading(now) && headers::is_clock_time(now)
                    &&& #[trigger] self.written_at(r, now)
                },
            r is Some ==> is_known_text(self.status(), status_text(self.status())),
            r is Some ==> headers::distinct_names(headers::header_fields(self.headers())),
    {
        self.write_dated(headers::read_clock())
    }
}

/// Every response says how long its body is, and when it was written: at the given time, or
/// whenever a `Date` header that was there before says. Its other headers are untouched.
pub proof fn law_sent_fields(
    fields: Seq<headers::HeaderField>,
    body_length: nat,
    now: Tm,
    name: Seq<char>,
)
    ensures
        ({
            let sent = sent_fields(fields, body_length, now);
            &&& headers::field_named(sent, "Content-Length"@) == Some(
                headers::text_field("Content-Length"@, numerals::decimal(body_length)),
            )
            &&& headers::field_named(sent, "Date"@) == if headers::has_field(fields, "Date"@) {
                headers::field_named(fields, "Date"@)
            } else {
                Some(headers::text_field("Date"@, headers::http_date(now)))
            }
            &&& !headers::same_name(name, "Content-Length"@) && !headers::same_name(name, "Date"@)
                ==> headers::field_named(sent, name) == headers::field_named(fields, name)
        }),
{
    let date = headers::text_field("Date"@, headers::http_date(now));
    let length = headers::text_field("Content-Length"@, numerals::decimal(body_length));
    reveal_strlit("Date");
    reveal_strlit("Content-Length");
    headers::lemma_other_length("Date"@, "Content-Length"@);
    let dated = if headers::has_field(fields, "Date"@) {
        fields
    } else {
        headers::put_field(fields, date)
    };
    headers::law_put_field(fields, date, name);
    headers::law_put_field(dated, length, "Date"@);
    headers::law_put_field(dated, length, name);
}

/// Where no two headers have the same name, a response carries exactly one `Date` and exactly one
/// `Content-Length`, and no two headers with the same name.
pub proof fn law_sent_fields_occur_once(
    fields: Seq<headers::HeaderField>,
    body_length: nat,
    now: Tm,
)
    requires
        headers::distinct_names(fields),
    ensures
        ({
            let sent = sent_fields(fields, body_length, now);
            &&& headers::distinct_names(sent)
            &&& headers::count_named(sent, "Date"@) == 1
            &&& headers::count_named(sent, "Content-Length"@) == 1
        }),
{
    let date = headers::text_field("Date"@, headers::http_date(now));
    let length = headers::text_field("Content-Length"@, numerals::decimal(body_length));
    let sent = sent_fields(fields, body_length, now);
    headers::law_put_field_keeps_names_distinct(fields, date);
    headers::law_put_field_keeps_names_distinct(fields, length);
    headers::law_put_field_keeps_names_distinct(headers::put_field(fields, date), length);
    law_sent_fields(fields, body_length, now, "Date"@);
    headers::law_put_field(fields, date, "Date"@);
    headers::law_put_field(sent, length, "Date"@);
    headers::law_put_field(sent, length, "Content-Length"@);
    headers::law_distinct_names_occur_once(sent, "Date"@);
    headers::law_distinct_names_occur_once(sent, "Content-Length"@);
}

/// A response that has a `Date` is written the same at all times: its only `Date` is the one that
/// it has.
pub proof fn law_date_is_kept(response: Response, now: Tm, later: Tm)
    requires
        headers::distinct_names(headers::header_fields(response.headers())),
        headers::has_field(headers::header_fields(response.headers()), "Date"@),
    ensures
        response.bytes_at(now) == response.bytes_at(later),
        ({
            let fields = headers::header_fields(response.headers());
            let sent = sent_fields(fields, response.body().len(), now);
            &&& headers::field_named(sent, "Date"@) == headers::field_named(fields, "Date"@)
            &&& headers::count_named(sent, "Date"@) == 1
        }),
{
    let fields = headers::header_fields(response.headers());
    law_sent_fields(fields, response.body().len(), now, "Date"@);
    law_sent_fields_occur_once(fields, response.body().len(), now);
}

/// The name under which the node answers, given the version of this package.
pub open spec fn server_name(package_version: Seq<char>) -> Seq<char> {
    "Tipt node-rs/"@ + package_version
}

/// An HTML page that shows a status and the name of the server.
pub open spec fn error_page(status: Seq<char>, server: Seq<char>) -> Seq<char> {
    "<!DOCTYPE html>\n<html>\n    <head>\n        <title>"@ + status
        + "</title>\n        <meta charset='utf-8' />\n    </head>\n    <body style='font-family: monospace'>\n        <center>\n            <h1>"@
        + status + "</h1>\n            <hr>\n            "@ + server
        + "\n        </center>\n    </body>\n</html>"@
}

/// The headers that the response with an error page starts out with.
pub open spec fn error_fields(server: Seq<char>) -> Seq<headers::HeaderField> {
    seq![
        headers::text_field("Content-Type"@, "text/html; charset=utf-8"@),
        headers::text_field("Server"@, server),
    ]
}

/// The bytes of the response with an error page.
pub open spec fn error_bytes(
    version: HttpVersion,
    status: Seq<char>,
    package_version: Seq<char>,
    now: Tm,
) -> Seq<u8> {
    let server = server_name(package_version);
    response_bytes(
        version,
        status,
        error_fields(server),
        vstd::utf8::encode_utf8(error_page(status, server)),
        now,
    )
}

proof fn lemma_error_fields(server: Seq<char>)
    ensures
        headers::put_field(
            headers::put_field(
                Seq::empty(),
                headers::text_field("Content-Type"@, "text/html; charset=utf-8"@),
            ),
            headers::text_field("Server"@, server),
        ) == error_fields(server),
        headers::printable(error_fields(server)),
        !headers::has_field(error_fields(server), "Date"@),
{
    let kind = headers::text_field("Content-Type"@, "text/html; charset=utf-8"@);
    let name = headers::text_field("Server"@, server);
    reveal_strlit("Content-Type");
    reveal_strlit("Server");
    reveal_strlit("Date");
    headers::lemma_other_length("Server"@, "Content-Type"@);
    headers::lemma_other_length("Date"@, "Content-Type"@);
    headers::lemma_other_length("Date"@, "Server"@);
    let none = Seq::<headers::HeaderField>::empty();
    assert(seq![kind].skip(1) =~= none);
    assert(headers::put_field(none, name) =~= seq![name]);
    assert(headers::put_field(seq![kind], name) =~= error_fields(server));
}

/// A response with an error page carries exactly these headers, in this order: the type of the
/// page, the name of the server, the date and the length of the page.
pub proof fn law_error_headers(server: Seq<char>, length: nat, now: Tm)
    ensures
        sent_fields(error_fields(server), length, now) == seq![
            headers::text_field("Content-Type"@, "text/html; charset=utf-8"@),
            headers::text_field("Server"@, server),
            headers::text_field("Date"@, headers::http_date(now)),
            headers::text_field("Content-Length"@, numerals::decimal(length)),
        ],
{
    let fields = error_fields(server);
    let date = headers::text_field("Date"@, headers::http_date(now));
    let size = headers::text_field("Content-Length"@, numerals::decimal(length));
    reveal_strlit("Content-Type");
    reveal_strlit("Server");
    reveal_strlit("Date");
    reveal_strlit("Content-Length");
    lemma_error_fields(server);
    assert forall|i: int| 0 <= i < fields.len() implies !headers::same_name(
        "Date"@,
        (#[trigger] fields[i]).0,
    ) by {
        headers::lemma_other_length("Date"@, fields[i].0);
    }
    headers::lemma_put_new_field(fields, date);
    let dated = fields.push(date);
    assert forall|i: int| 0 <= i < dated.len() implies !headers::same_name(
        "Content-Length"@,
        (#[trigger] dated[i]).0,
    ) by {
        headers::lemma_other_length("Content-Length"@, dated[i].0);
    }
    headers::lemma_put_new_field(dated, size);
    assert(dated.push(size) =~= seq![fields[0], fields[1], date, size]);
}

/// The simple HTTP response with an HTML error page.
pub fn html_error(version: HttpVersion, status: StatusCode, package_version: &str) -> (r: Response)
    ensures
        r.version() == version,
        r.status() == status,
        headers::header_fields(r.headers()) == error_fields(server_name(package_version@)),
        r.body() == vstd::utf8::encode_utf8(
            error_page(status_text(status), server_name(package_version@)),
        ),
        is_known_text(status, status_text(status)),
{
    let mut server = "Tipt node-rs/".to_owned();
    server.append(package_version);

    let title = status_to_text(&status);
    let mut html = "<!DOCTYPE html>\n<html>\n    <head>\n        <title>".to_owned();
    html.append(title.as_str());
    html.append(
        "</title>\n        <meta charset='utf-8' />\n    </head>\n    <body style='font-family: monospace'>\n        <center>\n            <h1>",
    );
    html.append(title.as_str());
    html.append("</h1>\n            <hr>\n            ");
    html.append(server.as_str());
    html.append("\n        </center>\n    </body>\n</html>");

    let mut response = Response::new(html.as_str().as_bytes_vec());
    *response.version_mut() = version;
    *response.status_mut() = status;
    headers::set_content_type_html(response.headers_mut());
    headers::set_server(response.headers_mut(), server);
    proof {
        lemma_error_fields(server@);
    }
    response
}

/// The bytes of a simple HTTP response with an HTML error page, written at the given time.
pub fn write_html_error_at(
    version: HttpVersion,
    status: StatusCode,
    package_version: &str,
    now: Tm,
) -> (r: Vec<u8>)
    requires
        headers::is_utc_time(now),
    ensures
        r@ == error_bytes(version, status_text(status), package_version@, now),
        is_known_text(status, status_text(status)),
{
    proof {
        lemma_error_fields(server_name(package_version@));
    }
    html_error(version, status, package_version).write_at(now)
}

/// The bytes of the response with an error page at whatever time the clock shows; `None` where it
/// shows no time that can be written.
pub open spec fn dated_error(
    version: HttpVersion,
    status: Seq<char>,
    package_version: Seq<char>,
    now: Tm,
) -> Option<Seq<u8>> {
    if headers::is_utc_time(now) {
        Some(error_bytes(version, status, package_version, now))
    } else {
        None
    }
}

/// The value of optional bytes.
pub open spec fn bytes_view(bytes: Option<Vec<u8>>) -> Option<Seq<u8>> {
    match bytes {
        Some(bytes) => Some(bytes@),
        None => None,
    }
}

/// The bytes of a simple HTTP response with an HTML error page, given the time that the clock
/// shows; `None` if and only if that is no time that can be written.
pub fn write_html_error_dated(
    version: HttpVersion,
    status: StatusCode,
    package_version: &str,
    now: Tm,
) -> (r: Option<Vec<u8>>)
    ensures
        bytes_view(r) == dated_error(version, status_text(status), package_version@, now),
        (r is Some) == headers::is_utc_time(now),
        r matches Some(bytes) ==> bytes@ == error_bytes(
            version,
            status_text(status),
            package_version@,
            now,
        ),
{
    if headers::has_utc_ranges(&now) {
        Some(write_html_error_at(version, status, package_version, now))
    } else {
        None
    }
}

/// The bytes of a simple HTTP response with an HTML error page, dated by the clock; `None` where
/// the clock shows no time that can be written. What the clock shows is not known beforehand.
pub fn write_html_error(
    version: HttpVersion,
    status: StatusCode,
    package_version: &str,
) -> (r: Option<Vec<u8>>)
    ensures
        exists|now: Tm|
            {
                &&& headers::is_reading(now) && headers::is_clock_time(now)
                &&& bytes_view(r) == #[trigger] dated_error(
                    version,
                    status_text(status),
                    package_version@,
                    now,
                )
            },
{
    write_html_error_dated(version, status, package_version, headers::read_clock())
}

/// The status with which a request is refused: no request is served over plain HTTP yet.
pub open spec fn refusal(subject: (Method, RequestUri)) -> StatusCode {
    match subject {
        (Method::Post, RequestUri::AbsolutePath(path)) if path@ == "/api/forward"@ => {
            StatusCode::NotImplemented
        },
        (Method::Get, RequestUri::AbsolutePath(path)) if path@ == "/api/public_key"@ => {
            StatusCode::NotImplemented
        },
        (_, RequestUri::AbsolutePath(_)) => StatusCode::NotFound,
        _ => StatusCode::BadRequest,
    }
}

/// The status with which a request is refused: no request is served over plain HTTP yet.
pub fn refuse(subject: &(Method, RequestUri)) -> (r: StatusCode)
    ensures
        r == refusal(*subject),
        r is NotImplemented <==> (subject.0 is Post && server::path_of(subject.1) == Some(
            "/api/forward"@,
        )) || (subject.0 is Get && server::path_of(subject.1) == Some("/api/public_key"@)),
        r is NotFound <==> server::path_of(subject.1) is Some && !(r is NotImplemented),
        r is BadRequest <==> server::path_of(subject.1) is None,
{
    match &subject.1 {
        RequestUri::AbsolutePath(path) => {
            let planned = match &subject.0 {
                Method::Post => *path == "/api/forward".to_owned(),
                Method::Get => *path == "/api/public_key".to_owned(),
                _ => false,
            };
            if planned {
                StatusCode::NotImplemented
            } else {
                StatusCode::NotFound
            }
        },
        _ => StatusCode::BadRequest,
    }
}

/// The text of the status with which a request is refused.
pub open spec fn refusal_text(subject: (Method, RequestUri)) -> Seq<char> {
    match refusal(subject) {
        StatusCode::NotImplemented => "501 Not Implemented"@,
        StatusCode::NotFound => "404 Not Found"@,
        _ => "400 Bad Request"@,
    }
}

/// Handles a single HTTP request at the given time. The request is answered if and only if the
/// address of its sender is known.
pub fn handle_http_at(
    has_peer_addr: bool,
    subject: &(Method, RequestUri),
    version: HttpVersion,
    package_version: &str,
    now: Tm,
) -> (r: Option<Vec<u8>>)
    requires
        headers::is_utc_time(now),
    ensures
        (r is Some) == has_peer_addr,
        r matches Some(bytes) ==> bytes@ == error_bytes(
            version,
            refusal_text(*subject),
            package_version@,
            now,
        ),
{
    if has_peer_addr {
        Some(write_html_error_at(version, refuse(subject), package_version, now))
    } else {
        None
    }
}

/// What is done with an HTTP request.
pub enum HttpAnswer {
    /// The request is dropped without an answer.
    Dropped,
    /// The request is answered with these bytes.
    Bytes(Vec<u8>),
    /// The answer cannot be dated, because the clock shows no time that can be written.
    Undated,
}

/// Whether a request is answered like this when the clock shows the given time. It is dropped if
/// and only if the address of its sender is not known, and the answer is undated if and only if
/// that is no time that can be written.
pub open spec fn answered_at(
    answer: HttpAnswer,
    has_peer_addr: bool,
    subject: (Method, RequestUri),
    version: HttpVersion,
    package_version: Seq<char>,
    now: Tm,
) -> bool {
    &&& (answer is Dropped) == !has_peer_addr
    &&& (answer is Undated) == (has_peer_addr && !headers::is_utc_time(now))
    &&& answer matches HttpAnswer::Bytes(bytes) ==> bytes@ == error_bytes(
        version,
        refusal_text(subject),
        package_version,
        now,
    )
}

/// Handles a single HTTP request, given the time that the clock shows.
pub fn handle_http_dated(
    has_peer_addr: bool,
    subject: &(Method, RequestUri),
    version: HttpVersion,
    package_version: &str,
    now: Tm,
) -> (r: HttpAnswer)
    ensures
        answered_at(r, has_peer_addr, *subject, version, package_version@, now),
        (r is Dropped) == !has_peer_addr,
        (r is Undated) == (has_peer_addr && !headers::is_utc_time(now)),
        r matches HttpAnswer::Bytes(bytes) ==> bytes@ == error_bytes(
            version,
            refusal_text(*subject),
            package_version@,
            now,
        ),
{
    if !has_peer_addr {
        return HttpAnswer::Dropped;
    }
    if !headers::has_utc_ranges(&now) {
        return HttpAnswer::Undated;
    }
    match handle_http_at(has_peer_addr, subject, version, package_version, now) {
        Some(bytes) => HttpAnswer::Bytes(bytes),
        None => HttpAnswer::Dropped,
    }
}

/// Handles a single HTTP request. The answer is dated by the clock, and what the clock shows is
/// not known beforehand.
pub fn handle_http(
    has_peer_addr: bool,
    subject: &(Method, RequestUri),
    version: HttpVersion,
    package_version: &str,
) -> (r: HttpAnswer)
    ensures
        exists|now: Tm|
            {
                &&& headers::is_reading(now) && headers::is_clock_time(now)
                &&& #[trigger] answered_at(
                    r,
                    has_peer_addr,
                    *subject,
                    version,
                    package_version@,
                    now,
                )
            },
{
    handle_http_dated(has_peer_addr, subject, version, package_version, headers::read_clock())
}

/// What is refused, and how, depends on the method and on the path alone: a `POST` to
/// `/api/forward` and a `GET` of `/api/public_key` are not implemented, no other path is found, and
/// what is no path is a bad request. The status is written out accordingly.
pub proof fn law_refusal(subject: (Method, RequestUri))
    ensures
        ({
            let path = server::path_of(subject.1);
            let planned = (subject.0 is Post && path == Some("/api/forward"@)) || (subject.0 is Get
                && path == Some("/api/public_key"@));
            &&& refusal(subject) is NotImplemented <==> planned
            &&& refusal(subject) is NotFound <==> path is Some && !planned
            &&& refusal(subject) is BadRequest <==> path is None
            &&& planned ==> refusal_text(subject) == "501 Not Implemented"@
            &&& path is Some && !planned ==> refusal_text(subject) == "404 Not Found"@
            &&& path is None ==> refusal_text(subject) == "400 Bad Request"@
        }),
{
}

/// When the clock shows a time that can be written, a request is answered with the bytes of the
/// error page for that time; when it shows another, there are no bytes. Without the address of the
/// sender there is no answer at any time.
pub proof fn law_answers(
    answer: HttpAnswer,
    has_peer_addr: bool,
    subject: (Method, RequestUri),
    version: HttpVersion,
    package_version: Seq<char>,
    now: Tm,
)
    requires
        answered_at(answer, has_peer_addr, subject, version, package_version, now),
    ensures
        !has_peer_addr ==> answer is Dropped,
        has_peer_addr && headers::is_utc_time(now) ==> (answer matches HttpAnswer::Bytes(bytes)
            && bytes@ == error_bytes(version, refusal_text(subject), package_version, now)),
        has_peer_addr && !headers::is_utc_time(now) ==> answer is Undated,
{
}

/// The bytes of an error page are there exactly for the times that can be written.
pub proof fn law_dated_error(
    version: HttpVersion,
    status: Seq<char>,
    package_version: Seq<char>,
    now: Tm,
)
    ensures
        dated_error(version, status, package_version, now) == if headers::is_utc_time(now) {
            Some(error_bytes(version, status, package_version, now))
        } else {
            None
        },
{
}

/// The bytes of a response are there exactly if it has a date or gets one from the clock, and they
/// are those of that time.
pub proof fn law_written(response: Response, bytes: Option<Vec<u8>>, now: Tm)
    requires
        response.written_at(bytes, now),
    ensures
        bytes is Some <==> headers::has_field(headers::header_fields(response.headers()), "Date"@)
            || headers::is_utc_time(now),
        bytes matches Some(bytes) ==> bytes@ == response.bytes_at(now),
{
}

/// A response starts with its status line and ends with its body; between them stand the lines of
/// the headers that it is sent with and an empty line.
pub proof fn law_response_bytes(response: Response, now: Tm)
    ensures
        ({
            let bytes = response.bytes_at(now);
            let line = vstd::utf8::encode_utf8(
                version_text(response.version()) + " "@ + status_text(response.status())
                    + "\r\n"@,
            );
            let fields = sent_fields(
                headers::header_fields(response.headers()),
                response.body().len(),
                now,
            );
            let lines = vstd::utf8::encode_utf8(headers::lines(fields) + "\r\n"@);
            &&& bytes.len() == line.len() + lines.len() + response.body().len()
            &&& bytes.take(line.len() as int) == line
            &&& bytes.subrange(line.len() as int, (line.len() + lines.len()) as int) == lines
            &&& bytes.skip((line.len() + lines.len()) as int) == response.body()
        }),
{
}

/// The lines of four headers.
proof fn lemma_four_lines(
    a: headers::HeaderField,
    b: headers::HeaderField,
    c: headers::HeaderField,
    d: headers::HeaderField,
)
    requires
        a.1 is Some && b.1 is Some && c.1 is Some && d.1 is Some,
    ensures
        headers::lines(seq![a, b, c, d]) == a.1.unwrap() + b.1.unwrap() + c.1.unwrap()
            + d.1.unwrap(),
{
    assert(seq![a, b, c, d].skip(1) =~= seq![b, c, d]);
    assert(seq![b, c, d].skip(1) =~= seq![c, d]);
    assert(seq![c, d].skip(1) =~= seq![d]);
    assert(seq![d].skip(1) =~= Seq::empty());
    assert(headers::lines(Seq::empty()) == Seq::<char>::empty());
    assert(headers::lines(seq![d]) =~= d.1.unwrap());
    assert(headers::lines(seq![c, d]) =~= c.1.unwrap() + d.1.unwrap());
    assert(headers::lines(seq![b, c, d]) =~= b.1.unwrap() + c.1.unwrap() + d.1.unwrap());
    assert(headers::lines(seq![a, b, c, d]) =~= a.1.unwrap() + b.1.unwrap() + c.1.unwrap()
        + d.1.unwrap());
}

/// A whole answer with an error page: the status line, the four headers and the page. The page
/// shows the status in its title and as its heading, and below it the name of the node with the
/// version of its package; its length is the one that is announced.
pub proof fn law_error_response(
    version: HttpVersion,
    status: Seq<char>,
    package_version: Seq<char>,
    now: Tm,
)
    ensures
        ({
            let server = "Tipt node-rs/"@ + package_version;
            let page = vstd::utf8::encode_utf8(
                "<!DOCTYPE html>\n<html>\n    <head>\n        <title>"@ + status
                    + "</title>\n        <meta charset='utf-8' />\n    </head>\n    <body style='font-family: monospace'>\n        <center>\n            <h1>"@
                    + status + "</h1>\n            <hr>\n            "@ + server
                    + "\n        </center>\n    </body>\n</html>"@,
            );
            let lines = "Content-Type"@ + ": "@ + headers::one_line("text/html; charset=utf-8"@)
                + "\r\n"@ + ("Server"@ + ": "@ + headers::one_line(server) + "\r\n"@) + ("Date"@
                + ": "@ + headers::one_line(headers::http_date(now)) + "\r\n"@) + (
            "Content-Length"@ + ": "@ + headers::one_line(numerals::decimal(page.len()))
                + "\r\n"@);
            error_bytes(version, status, package_version, now) == vstd::utf8::encode_utf8(
                version_text(version) + " "@ + status + "\r\n"@,
            ) + vstd::utf8::encode_utf8(lines + "\r\n"@) + page
        }),
{
    let server = server_name(package_version);
    let page = vstd::utf8::encode_utf8(error_page(status, server));
    law_error_headers(server, page.len(), now);
    lemma_four_lines(
        headers::text_field("Content-Type"@, "text/html; charset=utf-8"@),
        headers::text_field("Server"@, server),
        headers::text_field("Date"@, headers::http_date(now)),
        headers::text_field("Content-Length"@, numerals::decimal(page.len())),
    );
}

} // verus!
