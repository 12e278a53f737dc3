use vstd::prelude::*;
use vstd::utf8::{valid_utf8, decode_utf8};
use vstd::string::StringSliceAdditionalSpecFns;

verus! {

/// One parsed header line: the name kept verbatim, the value with one
/// optional leading space stripped.
#[derive(Debug, Clone, PartialEq)]
pub struct Header {
    /// Name, never empty.
    pub name: String,
    /// Value, never empty.
    pub value: String,
}

/// Disposition carried by a `Connection` header.
#[derive(Debug, Clone, PartialEq, Eq, Structural)]
pub enum ConnectionType {
    KeepAlive,
    Close,
}

/// Supported HTTP protocol versions.
#[derive(Debug, Clone, PartialEq, Eq, Structural)]
pub enum HttpVersion {
    Http1_0,
    Http1_1,
}

/// Outcome of feeding the request parser: the head is not complete yet
/// (`Partial`), or parsing failed for good.
#[derive(Debug, Clone, PartialEq, Eq, Structural)]
pub enum RequestError {
    Partial,
    RequestLine,
    MethodLenLimit,
    PathLenLimit,
    QueryLenLimit,
    WrongVersion,
    UnsupportedProtocol,
    WrongHeader,
    EmptyHeaderName,
    VersionLenLimit,
    HeadersCountLimit,
    HeaderNameLenLimit,
    HeaderValueLenLimit,
    PipeliningRequestsLimit,
    ContentLengthLimit,
    ContentLengthParseError,
}

/// A parsed HTTP request head, such as
/// `GET /?abc=123 HTTP/1.1\r\nConnection: keep-alive\r\n\r\n`.
#[derive(Debug)]
pub struct RequestData {
    /// Raw bytes of the head, without the body.
    pub raw: Vec<u8>,
    /// End index of the method in `raw`.
    pub method_end_index: usize,
    /// Start and end index of the path in `raw`.
    pub path_indices: (usize, usize),
    /// Start and end index of the query in `raw`.
    pub raw_query_indices: (usize, usize),
    /// Version of the request line.
    pub version: HttpVersion,
    /// Headers in wire order.
    pub headers: Vec<Header>,
    /// Disposition of the `Connection` header, when one was present.
    pub connection_type: Option<ConnectionType>,
    /// Value of the `Content-Length` header, when one was present.
    pub content_len: Option<usize>,
    /// The path percent-decoded to UTF-8; empty when decoding failed.
    pub decoded_path: String,
}

/// The method bytes read as UTF-8; empty when the indices are out of range
/// or the bytes are not valid UTF-8.
pub open spec fn spec_method_chars(r: RequestData) -> Seq<char> {
    if r.method_end_index <= r.raw@.len() && valid_utf8(r.raw@.take(r.method_end_index as int)) {
        decode_utf8(r.raw@.take(r.method_end_index as int))
    } else {
        Seq::empty()
    }
}

/// The raw query bytes; empty when the indices are out of range.
pub open spec fn spec_raw_query(r: RequestData) -> Seq<u8> {
    if r.raw_query_indices.0 <= r.raw_query_indices.1 && r.raw_query_indices.1 <= r.raw@.len() {
        r.raw@.subrange(r.raw_query_indices.0 as int, r.raw_query_indices.1 as int)
    } else {
        Seq::empty()
    }
}

/// The value of the first header with the given name.
pub open spec fn spec_header_value(headers: Seq<Header>, name: Seq<char>) -> Option<Seq<char>>
    decreases headers.len(),
{
    if headers.len() == 0 {
        None
    } else if headers[0].name@ == name {
        Some(headers[0].value@)
    } else {
        spec_header_value(headers.drop_first(), name)
    }
}

impl RequestData {
    /// A request with no fields filled in yet; the parser writes into it.
    pub fn new() -> (r: RequestData)
        ensures
            r.raw@ == Seq::<u8>::empty(),
            r.method_end_index == 0,
            r.path_indices == (0usize, 0usize),
            r.raw_query_indices == (0usize, 0usize),
            r.version == HttpVersion::Http1_0,
            r.headers@ == Seq::<Header>::empty(),
            r.connection_type is None,
            r.content_len is None,
            r.decoded_path@ == Seq::<char>::empty(),
    {
        RequestData {
            method_end_index: 0,
            path_indices: (0, 0),
            raw_query_indices: (0, 0),
            version: HttpVersion::Http1_0,
            headers: Vec::new(),
            raw: Vec::new(),
            connection_type: None,
            content_len: None,
            decoded_path: String::new(),
        }
    }

    /// The method bytes as a UTF-8 string; empty on invalid UTF-8.
    pub fn method(&self) -> (r: String)
        ensures
            r@ == spec_method_chars(*self),
    {
        if self.method_end_index > self.raw.len() {
            return String::new();
        }
        let m = crate::decode::utf8_to_string(vstd::slice::slice_subrange(
            self.raw.as_slice(),
            0,
            self.method_end_index,
        ));
        match m {
            Some(s) => s,
            None => String::new(),
        }
    }

    /// The percent-decoded path; empty when decoding failed.
    pub fn path(&self) -> (r: &str)
        ensures
            r@ == self.decoded_path@,
    {
        self.decoded_path.as_str()
    }

    /// The value of the first header with the given name.
    pub fn header_value(&self, name: &str) -> (r: Option<&str>)
        ensures
            match r {
                Some(v) => spec_header_value(self.headers@, name@) == Some(v@),
                None => spec_header_value(self.headers@, name@) is None,
            },
    {
        let mut i: usize = 0;
        proof {
            assert(self.headers@.skip(0) =~= self.headers@);
        }
        while i < self.headers.len()
            invariant
                0 <= i <= self.headers@.len(),
                spec_header_value(self.headers@, name@) == spec_header_value(
                    self.headers@.skip(i as int),
                    name@,
                ),
        decreases self.headers@.len() - i,
        {
            let matches_name = crate::bytes::str_eq(self.headers[i].name.as_str(), name);
            proof {
                assert(self.headers@.skip(i as int)[0] == self.headers@[i as int]);
                assert(self.headers@.skip(i as int).drop_first() =~= self.headers@.skip(i + 1));
            }
            if matches_name {
                return Some(self.headers[i].value.as_str());
            }
            i = i + 1;
        }
        None
    }

    /// The request line's version.
    pub fn version(&self) -> (r: &HttpVersion)
        ensures
            *r == self.version,
    {
        &self.version
    }

    /// All headers in wire order.
    pub fn headers(&self) -> (r: &Vec<Header>)
        ensures
            r == &self.headers,
    {
        &self.headers
    }

    /// The `Connection` header disposition, when one was present.
    pub fn connection_type(&self) -> (r: &Option<ConnectionType>)
        ensures
            *r == self.connection_type,
    {
        &self.connection_type
    }

    /// The declared content length; zero when no `Content-Length` header
    /// was present.
    pub fn content_len(&self) -> (r: usize)
        ensures
            r == match self.content_len {
                Some(n) => n,
                None => 0usize,
            },
    {
        match self.content_len {
            Some(n) => n,
            None => 0,
        }
    }

    /// True when the request declares a content length and carries
    /// `Content-Type: application/x-www-form-urlencoded`. The method is not
    /// consulted.
    pub fn has_post_form(&self) -> (r: bool)
        ensures
            r == (self.content_len is Some && spec_header_value(
                self.headers@,
                "Content-Type"@,
            ) == Some("application/x-www-form-urlencoded"@)),
    {
        if self.content_len.is_some() {
            match self.header_value("Content-Type") {
                Some(v) => {
                    let r = crate::bytes::str_eq(v, "application/x-www-form-urlencoded");
                    return r;
                }
                None => {
                    return false;
                }
            }
        }
        false
    }

    /// The query parsed into its name and value pairs.
    pub fn query(&self) -> (r: crate::query::Query)
        ensures
            crate::query::query_view(r.parts@) == crate::query::spec_parse_query(
                spec_raw_query(*self),
            ),
    {
        crate::query::parse_query(self.raw_query())
    }

    /// The cookies of the first `Cookie` header; a client sends at most
    /// one such header, later ones are not consulted.
    pub fn cookies(&self) -> (r: Vec<crate::cookie::CookieOfRequst>)
        ensures
            match spec_header_value(self.headers@, "Cookie"@) {
                Some(v) => crate::cookie::cookie_pairs(r@) == crate::cookie::spec_parse_cookie(v),
                None => r@ == Seq::<crate::cookie::CookieOfRequst>::empty(),
            },
    {
        match self.header_value("Cookie") {
            Some(h) => crate::cookie::parse_cookie(h),
            None => Vec::new(),
        }
    }

    /// The raw bytes of the head.
    pub fn raw(&self) -> (r: &[u8])
        ensures
            r@ == self.raw@,
    {
        self.raw.as_slice()
    }

    /// The method as raw bytes; empty when the index is out of range.
    pub fn raw_method(&self) -> (r: &[u8])
        ensures
            r@ == if self.method_end_index <= self.raw@.len() {
                self.raw@.take(self.method_end_index as int)
            } else {
                Seq::<u8>::empty()
            },
    {
        if self.method_end_index > self.raw.len() {
            return vstd::slice::slice_subrange(self.raw.as_slice(), 0, 0);
        }
        vstd::slice::slice_subrange(self.raw.as_slice(), 0, self.method_end_index)
    }

    /// The path as raw bytes; empty when the indices are out of range.
    pub fn raw_path(&self) -> (r: &[u8])
        ensures
            r@ == if self.path_indices.0 <= self.path_indices.1 && self.path_indices.1
                <= self.raw@.len() {
                self.raw@.subrange(self.path_indices.0 as int, self.path_indices.1 as int)
            } else {
                Seq::<u8>::empty()
            },
    {
        if self.path_indices.0 > self.path_indices.1 || self.path_indices.1 > self.raw.len() {
            return vstd::slice::slice_subrange(self.raw.as_slice(), 0, 0);
        }
        vstd::slice::slice_subrange(self.raw.as_slice(), self.path_indices.0, self.path_indices.1)
    }

    /// The query as raw bytes; empty when there was no query.
    pub fn raw_query(&self) -> (r: &[u8])
        ensures
            r@ == if self.raw_query_indices.0 <= self.raw_query_indices.1
                && self.raw_query_indices.1 <= self.raw@.len() {
                self.raw@.subrange(
                    self.raw_query_indices.0 as int,
                    self.raw_query_indices.1 as int,
                )
            } else {
                Seq::<u8>::empty()
            },
    {
        if self.raw_query_indices.0 > self.raw_query_indices.1 || self.raw_query_indices.1
            > self.raw.len() {
            return vstd::slice::slice_subrange(self.raw.as_slice(), 0, 0);
        }
        vstd::slice::slice_subrange(
            self.raw.as_slice(),
            self.raw_query_indices.0,
            self.raw_query_indices.1,
        )
    }
}

impl HttpVersion {
    /// The version as it is written in a response status line.
    pub fn to_string_for_response(&self) -> (r: &str)
        ensures
            *self is Http1_0 ==> r@ == "HTTP/1.0"@,
            *self is Http1_1 ==> r@ == "HTTP/1.1"@,
    {
        match self {
            HttpVersion::Http1_0 => "HTTP/1.0",
            HttpVersion::Http1_1 => "HTTP/1.1",
        }
    }
}

} // verus!
