use vstd::prelude::*;
use vstd::string::StringSliceAdditionalSpecFns;
use vstd::utf8::encode_utf8;
use crate::request::{ConnectionType, HttpVersion, RequestData};
use crate::decode::dec_digits;
use crate::bytes::{push_bytes, push_str_bytes};
use vstd::string::StringExecFns;

verus! {

/// The status line text for a status code, `"200 OK"` and the like; empty
/// for a code this table does not know, whose numeric value the caller
/// still keeps.
pub open spec fn spec_status_name(code: u16) -> Seq<char> {
    match code {
        100 => "100 Continue"@,
        101 => "101 Switching Protocols"@,
        102 => "102 Processing"@,
        103 => "103 Early Hints"@,
        200 => "200 OK"@,
        201 => "201 Created"@,
        202 => "202 Accepted"@,
        203 => "203 Non-Authoritative Information"@,
        204 => "204 No Content"@,
        205 => "205 Reset Content"@,
        206 => "206 Partial Content"@,
        207 => "207 Multi-Status"@,
        208 => "208 Already Reported"@,
        226 => "226 IM Used"@,
        300 => "300 Multiple Choices"@,
        301 => "301 Moved Permanently"@,
        302 => "302 Found"@,
        303 => "303 See Other"@,
        304 => "304 Not Modified"@,
        305 => "305 Use Proxy"@,
        306 => "306 Switch Proxy"@,
        307 => "307 Temporary Redirect"@,
        308 => "308 Permanent Redirect"@,
        400 => "400 Bad Request"@,
        401 => "401 Unauthorized"@,
        402 => "402 Payment Required"@,
        403 => "403 Forbidden"@,
        404 => "404 Not Found"@,
        405 => "405 Method Not Allowed"@,
        406 => "406 Not Acceptable"@,
        407 => "407 Proxy Authentication Required"@,
        408 => "408 Request Timeout"@,
        409 => "409 Conflict"@,
        410 => "410 Gone"@,
        411 => "411 Length Required"@,
        412 => "412 Precondition Failed"@,
        413 => "413 Payload Too Large"@,
        414 => "414 URI Too Long"@,
        415 => "415 Unsupported Media Type"@,
        416 => "416 Range Not Satisfiable"@,
        417 => "417 Expectation Failed"@,
        418 => "418 I'm a teapot"@,
        421 => "421 Misdirected Request"@,
        422 => "422 Unprocessable Entity"@,
        423 => "423 Locked"@,
        424 => "424 Failed Dependency"@,
        425 => "425 Too Early"@,
        426 => "426 Upgrade Required"@,
        428 => "428 Precondition Required"@,
        429 => "429 Too Many Requests"@,
        431 => "431 Request Header Fields Too Large"@,
        451 => "451 Unavailable For Legal Reasons"@,
        500 => "500 Internal Server Error"@,
        501 => "501 Not Implemented"@,
        502 => "502 Bad Gateway"@,
        503 => "503 Service Unavailable"@,
        504 => "504 Gateway Timeout"@,
        505 => "505 HTTP Version Not Supported"@,
        506 => "506 Variant Also Negotiates"@,
        507 => "507 Insufficient Storage"@,
        508 => "508 Loop Detected"@,
        510 => "510 Not Extended"@,
        511 => "511 Network Authentication Required"@,
        _ => ""@,
    }
}

/// The human-readable status line for a code, or an empty text for an
/// unknown code.
pub fn http_status_code_with_name(code: u16) -> (r: &'static str)
    ensures
        r@ == spec_status_name(code),
{
    match code {
        100 => "100 Continue",
        101 => "101 Switching Protocols",
        102 => "102 Processing",
        103 => "103 Early Hints",
        200 => "200 OK",
        201 => "201 Created",
        202 => "202 Accepted",
        203 => "203 Non-Authoritative Information",
        204 => "204 No Content",
        205 => "205 Reset Content",
        206 => "206 Partial Content",
        207 => "207 Multi-Status",
        208 => "208 Already Reported",
        226 => "226 IM Used",
        300 => "300 Multiple Choices",
        301 => "301 Moved Permanently",
        302 => "302 Found",
        303 => "303 See Other",
        304 => "304 Not Modified",
        305 => "305 Use Proxy",
        306 => "306 Switch Proxy",
        307 => "307 Temporary Redirect",
        308 => "308 Permanent Redirect",
        400 => "400 Bad Request",
        401 => "401 Unauthorized",
        402 => "402 Payment Required",
        403 => "403 Forbidden",
        404 => "404 Not Found",
        405 => "405 Method Not Allowed",
        406 => "406 Not Acceptable",
        407 => "407 Proxy Authentication Required",
        408 => "408 Request Timeout",
        409 => "409 Conflict",
        410 => "410 Gone",
        411 => "411 Length Required",
        412 => "412 Precondition Failed",
        413 => "413 Payload Too Large",
        414 => "414 URI Too Long",
        415 => "415 Unsupported Media Type",
        416 => "416 Range Not Satisfiable",
        417 => "417 Expectation Failed",
        418 => "418 I'm a teapot",
        421 => "421 Misdirected Request",
        422 => "422 Unprocessable Entity",
        423 => "423 Locked",
        424 => "424 Failed Dependency",
        425 => "425 Too Early",
        426 => "426 Upgrade Required",
        428 => "428 Precondition Required",
        429 => "429 Too Many Requests",
        431 => "431 Request Header Fields Too Large",
        451 => "451 Unavailable For Legal Reasons",
        500 => "500 Internal Server Error",
        501 => "501 Not Implemented",
        502 => "502 Bad Gateway",
        503 => "503 Service Unavailable",
        504 => "504 Gateway Timeout",
        505 => "505 HTTP Version Not Supported",
        506 => "506 Variant Also Negotiates",
        507 => "507 Insufficient Storage",
        508 => "508 Loop Detected",
        510 => "510 Not Extended",
        511 => "511 Network Authentication Required",
        _ => "",
    }
}

/// Whether the connection closes after a response to this request:
/// `Connection: close` closes, `Connection: keep-alive` keeps the
/// connection open, and without a `Connection` header HTTP/1.0 closes
/// while HTTP/1.1 stays open.
pub open spec fn spec_need_close(r: RequestData) -> bool {
    match r.connection_type {
        Some(ConnectionType::Close) => true,
        Some(ConnectionType::KeepAlive) => false,
        None => r.version == HttpVersion::Http1_0,
    }
}

/// Decides from the request whether to close the connection after the
/// response, by the keep-alive policy.
pub fn need_close_by_request(request: &RequestData) -> (r: bool)
    ensures
        r == spec_need_close(*request),
{
    match &request.connection_type {
        Some(ConnectionType::Close) => true,
        Some(ConnectionType::KeepAlive) => false,
        None => match request.version {
            HttpVersion::Http1_0 => true,
            HttpVersion::Http1_1 => false,
        },
    }
}

/// Decides from the request's version and `Connection` header whether to
/// close the connection after the response; the same rule as
/// `need_close_by_request`.
pub fn need_close_by_version_and_connection(request: &RequestData) -> (r: bool)
    ensures
        r == spec_need_close(*request),
{
    need_close_by_request(request)
}

/// The `Connection` response header that a request calls for under the
/// keep-alive policy; empty for HTTP/1.0 without a `Connection` header.
pub open spec fn spec_connection_str(r: RequestData) -> Seq<char> {
    match r.connection_type {
        Some(ConnectionType::KeepAlive) => "Connection: keep_alive\r\n"@,
        Some(ConnectionType::Close) => "Connection: close\r\n"@,
        None => match r.version {
            HttpVersion::Http1_1 => "Connection: keep_alive\r\n"@,
            HttpVersion::Http1_0 => ""@,
        },
    }
}

/// The `Connection` header line for a response to this request.
pub fn connection_str_by_request(request: &RequestData) -> (r: &'static str)
    ensures
        r@ == spec_connection_str(*request),
{
    match &request.connection_type {
        Some(ConnectionType::KeepAlive) => "Connection: keep_alive\r\n",
        Some(ConnectionType::Close) => "Connection: close\r\n",
        None => match request.version {
            HttpVersion::Http1_1 => "Connection: keep_alive\r\n",
            HttpVersion::Http1_0 => "",
        },
    }
}

/// The bytes of an optional string part; nothing when it is not set.
pub open spec fn spec_opt_bytes(v: Option<String>) -> Seq<u8> {
    match v {
        Some(s) => encode_utf8(s@),
        None => Seq::empty(),
    }
}

/// Builds an HTTP response for one request. The `Date` header always
/// carries the shared ticker string handed to `build`, and
/// `Content-Length` is always emitted, zero included.
pub struct Response {
    /// Status code; an unknown code keeps its number and gets an empty
    /// status text.
    pub code: u16,
    /// The full `Content-Type` header line, or empty for none.
    pub content_type: String,
    /// The response content.
    pub content: Vec<u8>,
    /// When set, forces the `Connection` header; when not, the keep-alive
    /// policy decides from the request.
    pub keep_alive_connection: Option<bool>,
    /// Extra header lines, each ending in CR LF.
    pub headers: Option<String>,
    /// `Set-Cookie` header lines, each ending in CR LF.
    pub cookies: Option<String>,
    /// The `Location` header value.
    pub location: Option<String>,
    /// The request being answered.
    pub request: RequestData,
}

/// The `Connection` header line of a response: as forced by the builder,
/// or else as the keep-alive policy decides from the request.
pub open spec fn spec_response_connection(r: Response) -> Seq<char> {
    match r.keep_alive_connection {
        Some(true) => "Connection: keep_alive\r\n"@,
        Some(false) => "Connection: close\r\n"@,
        None => spec_connection_str(r.request),
    }
}

/// The whole response on the wire: status line, `Date`, `Connection`,
/// `Content-Length`, then the content-type line, extra headers, cookies
/// and `Location` when set, a blank line, and the content.
pub open spec fn spec_response_bytes(r: Response, date: Seq<char>) -> Seq<u8> {
    encode_utf8(
        match r.request.version {
            HttpVersion::Http1_0 => "HTTP/1.0"@,
            HttpVersion::Http1_1 => "HTTP/1.1"@,
        },
    ) + encode_utf8(" "@) + encode_utf8(spec_status_name(r.code)) + encode_utf8("\r\n"@)
        + encode_utf8("Date: "@) + encode_utf8(date) + encode_utf8("\r\n"@) + encode_utf8(
        spec_response_connection(r),
    ) + encode_utf8("Content-Length: "@) + dec_digits(r.content@.len() as int) + encode_utf8(
        "\r\n"@,
    ) + encode_utf8(r.content_type@) + spec_opt_bytes(r.headers) + spec_opt_bytes(r.cookies) + (
    match r.location {
        Some(l) => encode_utf8("Location: "@) + encode_utf8(l@) + encode_utf8("\r\n"@),
        None => Seq::empty(),
    }) + encode_utf8("\r\n"@) + r.content@
}

impl Response {
    /// A response with the given code and no content yet.
    pub fn new(code: u16, request: RequestData) -> (r: Response)
        ensures
            r.code == code,
            r.content@ == Seq::<u8>::empty(),
            r.content_type@ == Seq::<char>::empty(),
            r.keep_alive_connection is None,
            r.headers is None,
            r.cookies is None,
            r.location is None,
            r.request == request,
    {
        Response {
            code,
            content: Vec::new(),
            content_type: String::new(),
            keep_alive_connection: None,
            headers: None,
            cookies: None,
            location: None,
            request,
        }
    }

    /// Sets content of any type; `content_type` is the full header line.
    pub fn content(self, content_type: &str, content: &[u8]) -> (r: Response)
        ensures
            r == (Response {
                content_type: r.content_type,
                content: r.content,
                ..self
            }),
            r.content_type@ == content_type@,
            r.content@ == content@,
    {
        let mut s = self;
        s.content_type = String::from_str(content_type);
        s.content = vstd::slice::slice_to_vec(content);
        s
    }

    /// Sets plain-text content.
    pub fn text(self, text: &str) -> (r: Response)
        ensures
            r == (Response {
                content_type: r.content_type,
                content: r.content,
                ..self
            }),
            r.content_type@ == "Content-Type: text/plain; charset=utf-8\r\n"@,
            r.content@ == text.spec_bytes(),
    {
        let mut s = self;
        s.content_type = String::from_str("Content-Type: text/plain; charset=utf-8\r\n");
        s.content = vstd::slice::slice_to_vec(text.as_bytes());
        s
    }

    /// Sets HTML content.
    pub fn html(self, html: &str) -> (r: Response)
        ensures
            r == (Response {
                content_type: r.content_type,
                content: r.content,
                ..self
            }),
            r.content_type@ == "Content-Type: text/html; charset=utf-8\r\n"@,
            r.content@ == html.spec_bytes(),
    {
        let mut s = self;
        s.content_type = String::from_str("Content-Type: text/html; charset=utf-8\r\n");
        s.content = vstd::slice::slice_to_vec(html.as_bytes());
        s
    }

    /// Sets WebAssembly content.
    pub fn wasm(self, wasm_data: &[u8]) -> (r: Response)
        ensures
            r == (Response {
                content_type: r.content_type,
                content: r.content,
                ..self
            }),
            r.content_type@ == "Content-Type: application/wasm\r\n"@,
            r.content@ == wasm_data@,
    {
        let mut s = self;
        s.content_type = String::from_str("Content-Type: application/wasm\r\n");
        s.content = vstd::slice::slice_to_vec(wasm_data);
        s
    }

    /// Forces `Connection: keep_alive` on this response.
    pub fn keep_alive(self) -> (r: Response)
        ensures
            r == (Response { keep_alive_connection: Some(true), ..self }),
    {
        let mut s = self;
        s.keep_alive_connection = Some(true);
        s
    }

    /// Forces `Connection: close` on this response.
    pub fn close(self) -> (r: Response)
        ensures
            r == (Response { keep_alive_connection: Some(false), ..self }),
    {
        let mut s = self;
        s.keep_alive_connection = Some(false);
        s
    }

    /// Sets extra header lines; they must not repeat `Date`,
    /// `Content-Length` or `Content-Type`, which are emitted on their own.
    pub fn headers(self, headers: &str) -> (r: Response)
        ensures
            r == (Response { headers: r.headers, ..self }),
            r.headers matches Some(h) && h@ == headers@,
    {
        let mut s = self;
        s.headers = Some(String::from_str(headers));
        s
    }

    /// Sets `Set-Cookie` header lines.
    pub fn cookies(self, cookies: &str) -> (r: Response)
        ensures
            r == (Response { cookies: r.cookies, ..self }),
            r.cookies matches Some(c) && c@ == cookies@,
    {
        let mut s = self;
        s.cookies = Some(String::from_str(cookies));
        s
    }

    /// Sets the `Location` header value.
    pub fn location(self, location: &str) -> (r: Response)
        ensures
            r == (Response { location: r.location, ..self }),
            r.location matches Some(l) && l@ == location@,
    {
        let mut s = self;
        s.location = Some(String::from_str(location));
        s
    }

    /// Whether the connection is to close after this response: as forced
    /// by the builder, or else as the keep-alive policy decides.
    pub fn need_close(&self) -> (r: bool)
        ensures
            r == match self.keep_alive_connection {
                Some(ka) => !ka,
                None => spec_need_close(self.request),
            },
    {
        match self.keep_alive_connection {
            Some(ka) => !ka,
            None => need_close_by_request(&self.request),
        }
    }

    /// Builds the bytes of the response, with the given prepared date
    /// string in the `Date` header.
    #[verifier::rlimit(100)]
    pub fn build(&self, date: &str) -> (r: Vec<u8>)
        ensures
            r@ == spec_response_bytes(*self, date@),
    {
        let mut out: Vec<u8> = Vec::new();
        push_str_bytes(&mut out, self.request.version.to_string_for_response());
        push_str_bytes(&mut out, " ");
        push_str_bytes(&mut out, http_status_code_with_name(self.code));
        push_str_bytes(&mut out, "\r\n");
        push_str_bytes(&mut out, "Date: ");
        push_str_bytes(&mut out, date);
        push_str_bytes(&mut out, "\r\n");
        match self.keep_alive_connection {
            Some(true) => push_str_bytes(&mut out, "Connection: keep_alive\r\n"),
            Some(false) => push_str_bytes(&mut out, "Connection: close\r\n"),
            None => push_str_bytes(&mut out, connection_str_by_request(&self.request)),
        }
        push_str_bytes(&mut out, "Content-Length: ");
        let len_digits = crate::decode::u64_to_dec_bytes(self.content.len() as u64);
        push_bytes(&mut out, len_digits.as_slice());
        push_str_bytes(&mut out, "\r\n");
        push_str_bytes(&mut out, self.content_type.as_str());
        match &self.headers {
            Some(h) => push_str_bytes(&mut out, h.as_str()),
            None => {},
        }
        match &self.cookies {
            Some(c) => push_str_bytes(&mut out, c.as_str()),
            None => {},
        }
        match &self.location {
            Some(l) => {
                push_str_bytes(&mut out, "Location: ");
                push_str_bytes(&mut out, l.as_str());
                push_str_bytes(&mut out, "\r\n");
            }
            None => {},
        }
        push_str_bytes(&mut out, "\r\n");
        push_bytes(&mut out, self.content.as_slice());
        proof {
            assert(out@ =~= spec_response_bytes(*self, date@));
        }
        out
    }
}

} // verus!
