use vstd::prelude::*;
use vstd::utf8::{valid_utf8, decode_utf8};
use vstd::string::StringSliceAdditionalSpecFns;
use crate::request::{ConnectionType, Header, HttpVersion, RequestData, RequestError};
use crate::decode::{
    all_digit_bytes, dec_val, is_digit_byte, parse_dec_usize, pct_decode_utf8,
    spec_pct_decode_utf8,
};
use crate::bytes::{bytes_eq, push_bytes};

verus! {

pub const CR: u8 = 13;

pub const LF: u8 = 10;

pub const SP: u8 = 32;

pub const COLON: u8 = 58;

pub const QMARK: u8 = 63;

/// Length of the version field `HTTP/x.y`.
pub const VERSION_LEN: usize = 8;

/// Parser limits, applied while the head is scanned.
#[derive(Debug, Clone)]
pub struct ParseHttpRequestSettings {
    /// Maximum bytes in the method token.
    pub method_len_limit: u16,
    /// Maximum bytes in the path.
    pub path_len_limit: u16,
    /// Maximum bytes in the query, the `?` not counted.
    pub query_len_limit: u16,
    /// Maximum number of headers.
    pub headers_count_limit: u16,
    /// Maximum bytes in a header name.
    pub header_name_len_limit: u16,
    /// Maximum bytes in a header value, the one optional leading space
    /// counted on top.
    pub header_value_len_limit: u16,
    /// Maximum number of requests parsed out of one socket read; more can
    /// only arrive from a pipelining client.
    pub pipelining_requests_limit: u16,
}

impl Default for ParseHttpRequestSettings {
    /// Limits in the spirit of common servers.
    fn default() -> (r: Self)
        ensures
            r.method_len_limit == 7,
            r.path_len_limit == 512,
            r.query_len_limit == 512,
            r.headers_count_limit == 64,
            r.header_name_len_limit == 32,
            r.header_value_len_limit == 512,
            r.pipelining_requests_limit == 64,
    {
        ParseHttpRequestSettings {
            method_len_limit: 7,
            path_len_limit: 512,
            query_len_limit: 512,
            headers_count_limit: 64,
            header_name_len_limit: 32,
            header_value_len_limit: 512,
            pipelining_requests_limit: 64,
        }
    }
}

/// What the parser reads next; indices point into the head buffer.
#[derive(Debug, Clone, Copy)]
pub enum ParseState {
    Method,
    /// Path, with its start index.
    Path(usize),
    /// Query, with its start index.
    Query(usize),
    /// Version, with its start index.
    Version(usize),
    /// Header line, with its start index and the index of its `:`
    /// separator, 0 while no separator has been seen.
    Header(usize, usize),
}

/// Why a version field was rejected.
#[derive(Debug, PartialEq, Eq, Structural)]
pub enum VersionError {
    WrongLen,
    WrongText,
    UnsupportedProtocol,
}

/// The machine phase of the parser, over mathematical indices.
#[verifier::ext_equal]
pub ghost enum SpecPhase {
    Method,
    Path(int),
    Query(int),
    Version(int),
    Header(int, int),
}

/// The request fields gathered so far, as mathematical values.
#[verifier::ext_equal]
pub ghost struct SpecRequest {
    pub method_end: int,
    pub path: (int, int),
    pub query: (int, int),
    pub version: HttpVersion,
    pub headers: Seq<(Seq<char>, Seq<char>)>,
    pub connection: Option<ConnectionType>,
    pub content_len: Option<usize>,
    pub decoded_path: Seq<char>,
}

/// State of the machine after some bytes have been read: still scanning,
/// done with a head of the given length, or failed.
#[verifier::ext_equal]
pub ghost enum SpecParse {
    Running(SpecRequest, SpecPhase),
    Complete(SpecRequest, int),
    Failed(RequestError),
}

/// The machine's starting request value.
pub open spec fn sp_empty_req() -> SpecRequest {
    SpecRequest {
        method_end: 0,
        path: (0, 0),
        query: (0, 0),
        version: HttpVersion::Http1_0,
        headers: Seq::empty(),
        connection: None,
        content_len: None,
        decoded_path: Seq::empty(),
    }
}

/// The decoded path stored for a raw path: percent-decoded UTF-8, or empty
/// when decoding fails.
pub open spec fn sp_decoded_path(bs: Seq<u8>) -> Seq<char> {
    match spec_pct_decode_utf8(bs) {
        Some(s) => s,
        None => Seq::empty(),
    }
}

/// Reading of the version field: exactly eight bytes `HTTP/x.y`, with `1.0`
/// and `1.1` the supported versions.
pub open spec fn sp_version_of(vb: Seq<u8>) -> Result<HttpVersion, VersionError> {
    if vb.len() != VERSION_LEN {
        Err(VersionError::WrongLen)
    } else if vb.take(5) != "HTTP/".spec_bytes() {
        Err(VersionError::WrongText)
    } else if vb.skip(5) == "1.1".spec_bytes() {
        Ok(HttpVersion::Http1_1)
    } else if vb.skip(5) == "1.0".spec_bytes() {
        Ok(HttpVersion::Http1_0)
    } else {
        Err(VersionError::UnsupportedProtocol)
    }
}

/// Reading of a `Content-Length` value: the first byte must be a decimal
/// digit, and the whole value must be a decimal number that fits in
/// `usize`.
pub open spec fn sp_content_len_of(vb: Seq<u8>) -> Result<usize, RequestError> {
    if vb.len() == 0 || !is_digit_byte(vb[0]) {
        Err(RequestError::ContentLengthParseError)
    } else if all_digit_bytes(vb) && dec_val(vb) <= usize::MAX {
        Ok(dec_val(vb) as usize)
    } else {
        Err(RequestError::ContentLengthParseError)
    }
}

/// One finished header line `pre[h..i-1]` followed by CR LF, with `sep` the
/// index of the `:`; `i` is the index of the final LF.
pub open spec fn sp_finish_header(
    req: SpecRequest,
    pre: Seq<u8>,
    h: int,
    sep: int,
    s: ParseHttpRequestSettings,
) -> SpecParse {
    let i = pre.len() - 1;
    if sep == 0 || i - sep < 2 || sep <= h {
        SpecParse::Failed(RequestError::WrongHeader)
    } else {
        let vi = if pre[sep + 1] == SP {
            sep + 2
        } else {
            sep + 1
        };
        if vi >= i - 1 {
            SpecParse::Failed(RequestError::WrongHeader)
        } else {
            let nb = pre.subrange(h, sep);
            let vb = pre.subrange(vi, i - 1);
            if !valid_utf8(nb) || !valid_utf8(vb) {
                SpecParse::Failed(RequestError::WrongHeader)
            } else {
                let conn = if req.connection is None && nb == "Connection".spec_bytes() {
                    if vb == "keep-alive".spec_bytes() {
                        Some(ConnectionType::KeepAlive)
                    } else if vb == "close".spec_bytes() {
                        Some(ConnectionType::Close)
                    } else {
                        None
                    }
                } else {
                    req.connection
                };
                let headers = req.headers.push((decode_utf8(nb), decode_utf8(vb)));
                if req.content_len is None && nb == "Content-Length".spec_bytes() {
                    match sp_content_len_of(vb) {
                        Ok(n) => SpecParse::Running(
                            SpecRequest {
                                headers,
                                connection: conn,
                                content_len: Some(n),
                                ..req
                            },
                            SpecPhase::Header(i + 1, 0),
                        ),
                        Err(e) => SpecParse::Failed(e),
                    }
                } else {
                    SpecParse::Running(
                        SpecRequest { headers, connection: conn, ..req },
                        SpecPhase::Header(i + 1, 0),
                    )
                }
            }
        }
    }
}

/// One step of the machine in the method phase.
pub open spec fn sp_step_method(req: SpecRequest, pre: Seq<u8>, s: ParseHttpRequestSettings) -> SpecParse {
    let i = pre.len() - 1;
    let b = pre[i];
    if b == SP {
        SpecParse::Running(SpecRequest { method_end: i, ..req }, SpecPhase::Path(i + 1))
    } else if b == LF {
        SpecParse::Failed(RequestError::RequestLine)
    } else if i >= s.method_len_limit as int {
        SpecParse::Failed(RequestError::MethodLenLimit)
    } else {
        SpecParse::Running(req, SpecPhase::Method)
    }
}

/// One step of the machine in the path phase.
pub open spec fn sp_step_path(req: SpecRequest, p: int, pre: Seq<u8>, s: ParseHttpRequestSettings) -> SpecParse {
    let i = pre.len() - 1;
    let b = pre[i];
    if b == SP {
        SpecParse::Running(
            SpecRequest {
                path: (p, i),
                decoded_path: sp_decoded_path(pre.subrange(p, i)),
                ..req
            },
            SpecPhase::Version(i + 1),
        )
    } else if b == LF {
        SpecParse::Failed(RequestError::RequestLine)
    } else if b == QMARK {
        SpecParse::Running(
            SpecRequest {
                path: (p, i),
                decoded_path: sp_decoded_path(pre.subrange(p, i)),
                ..req
            },
            SpecPhase::Query(i + 1),
        )
    } else if i - p >= s.path_len_limit as int {
        SpecParse::Failed(RequestError::PathLenLimit)
    } else {
        SpecParse::Running(req, SpecPhase::Path(p))
    }
}

/// One step of the machine in the query phase.
pub open spec fn sp_step_query(req: SpecRequest, q: int, pre: Seq<u8>, s: ParseHttpRequestSettings) -> SpecParse {
    let i = pre.len() - 1;
    let b = pre[i];
    if b == SP {
        SpecParse::Running(SpecRequest { query: (q, i), ..req }, SpecPhase::Version(i + 1))
    } else if b == LF {
        SpecParse::Failed(RequestError::RequestLine)
    } else if i - q >= s.query_len_limit as int {
        SpecParse::Failed(RequestError::QueryLenLimit)
    } else {
        SpecParse::Running(req, SpecPhase::Query(q))
    }
}

/// One step of the machine in the version phase.
pub open spec fn sp_step_version(req: SpecRequest, v: int, pre: Seq<u8>, s: ParseHttpRequestSettings) -> SpecParse {
    let i = pre.len() - 1;
    let b = pre[i];
    if b == LF {
        let vb = if v <= i - 1 {
            pre.subrange(v, i - 1)
        } else {
            Seq::empty()
        };
        match sp_version_of(vb) {
            Ok(ver) => SpecParse::Running(
                SpecRequest { version: ver, ..req },
                SpecPhase::Header(i + 1, 0),
            ),
            Err(VersionError::UnsupportedProtocol) => SpecParse::Failed(
                RequestError::UnsupportedProtocol,
            ),
            Err(_) => SpecParse::Failed(RequestError::WrongVersion),
        }
    } else if i - v > VERSION_LEN as int {
        SpecParse::Failed(RequestError::VersionLenLimit)
    } else {
        SpecParse::Running(req, SpecPhase::Version(v))
    }
}

/// One step of the machine in the header phase.
pub open spec fn sp_step_header(
    req: SpecRequest,
    h: int,
    sep: int,
    pre: Seq<u8>,
    s: ParseHttpRequestSettings,
) -> SpecParse {
    let i = pre.len() - 1;
    let b = pre[i];
    if b == LF && i >= 3 && pre[i - 3] == CR && pre[i - 2] == LF && pre[i - 1] == CR {
        SpecParse::Complete(req, i + 1)
    } else if sep == 0 && i - h > s.header_name_len_limit as int {
        SpecParse::Failed(RequestError::HeaderNameLenLimit)
    } else if sep != 0 && i - sep > s.header_value_len_limit as int + 2 {
        SpecParse::Failed(RequestError::HeaderValueLenLimit)
    } else if b == COLON && sep == 0 {
        if req.headers.len() >= s.headers_count_limit as int {
            SpecParse::Failed(RequestError::HeadersCountLimit)
        } else if i <= h {
            SpecParse::Failed(RequestError::EmptyHeaderName)
        } else {
            SpecParse::Running(req, SpecPhase::Header(h, i))
        }
    } else if b == LF && i >= 1 && pre[i - 1] == CR {
        sp_finish_header(req, pre, h, sep, s)
    } else {
        SpecParse::Running(req, SpecPhase::Header(h, sep))
    }
}

/// One step of the machine: `pre` is the prefix read so far and the byte
/// acted on is its last, at index `pre.len() - 1`.
pub open spec fn sp_step(
    req: SpecRequest,
    ph: SpecPhase,
    pre: Seq<u8>,
    s: ParseHttpRequestSettings,
) -> SpecParse {
    match ph {
        SpecPhase::Method => sp_step_method(req, pre, s),
        SpecPhase::Path(p) => sp_step_path(req, p, pre, s),
        SpecPhase::Query(q) => sp_step_query(req, q, pre, s),
        SpecPhase::Version(v) => sp_step_version(req, v, pre, s),
        SpecPhase::Header(h, sep) => sp_step_header(req, h, sep, pre, s),
    }
}

/// State of the machine after the first `n` bytes of `bytes`. Completion
/// and failure are absorbing: the first of them decides the outcome.
pub open spec fn sp_run(bytes: Seq<u8>, n: int, s: ParseHttpRequestSettings) -> SpecParse
    decreases n,
{
    if n <= 0 {
        SpecParse::Running(sp_empty_req(), SpecPhase::Method)
    } else {
        match sp_run(bytes, n - 1, s) {
            SpecParse::Running(req, ph) => sp_step(req, ph, bytes.take(n), s),
            done => done,
        }
    }
}

/// Once the machine has completed or failed, reading further bytes changes
/// nothing.
pub proof fn lemma_run_absorb(bytes: Seq<u8>, m: int, n: int, s: ParseHttpRequestSettings)
    requires
        0 <= m <= n,
        !(sp_run(bytes, m, s) is Running),
    ensures
        sp_run(bytes, n, s) == sp_run(bytes, m, s),
    decreases n - m,
{
    if n > m {
        lemma_run_absorb(bytes, m, n - 1, s);
    }
}

/// The machine state after `n` bytes depends on those bytes alone: a stream
/// reaches the same state however it is cut into chunks.
pub proof fn lemma_run_prefix(b1: Seq<u8>, b2: Seq<u8>, n: int, s: ParseHttpRequestSettings)
    requires
        0 <= n <= b1.len(),
        n <= b2.len(),
        b1.take(n) == b2.take(n),
    ensures
        sp_run(b1, n, s) == sp_run(b2, n, s),
    decreases n,
{
    if n > 0 {
        assert(b1.take(n - 1) =~= b1.take(n).take(n - 1));
        assert(b2.take(n - 1) =~= b2.take(n).take(n - 1));
        lemma_run_prefix(b1, b2, n - 1, s);
    }
}

/// The requests a pipelined byte stream holds, in wire order: the machine
/// reads one head, hands the rest of the stream on, and starts over. A
/// stream of K well-formed requests yields exactly K entries, each with
/// the fields the machine derived for it.
pub open spec fn sp_requests(bytes: Seq<u8>, s: ParseHttpRequestSettings) -> Seq<SpecRequest>
    decreases bytes.len(),
{
    match sp_run(bytes, bytes.len() as int, s) {
        SpecParse::Complete(req, h) => if 0 < h <= bytes.len() {
            seq![req] + sp_requests(bytes.skip(h), s)
        } else {
            seq![req]
        },
        _ => Seq::empty(),
    }
}

/// One completed head takes its bytes off the front of the stream: the
/// stream's requests are that head's request followed by the requests of
/// the surplus. Together with `parse_yet`'s contract — which returns
/// exactly the machine's request and surplus and starts over — a
/// connection that re-feeds each surplus sees every request of the
/// stream, in order.
pub proof fn lemma_stream_requests(bytes: Seq<u8>, req: SpecRequest, h: int, s: ParseHttpRequestSettings)
    requires
        sp_run(bytes, bytes.len() as int, s) == SpecParse::Complete(req, h),
        0 < h <= bytes.len(),
    ensures
        sp_requests(bytes, s) == seq![req] + sp_requests(bytes.skip(h), s),
{
}

/// Well-placed phase indices after `n` bytes: every stored index lies
/// within the bytes read so far.
pub open spec fn phase_ok(ph: SpecPhase, n: int) -> bool {
    match ph {
        SpecPhase::Method => true,
        SpecPhase::Path(p) => 1 <= p <= n,
        SpecPhase::Query(q) => 2 <= q <= n,
        SpecPhase::Version(v) => 2 <= v <= n,
        SpecPhase::Header(h, sep) => 3 <= h <= n && (sep == 0 || (h < sep && sep <= n - 1)),
    }
}

/// A running machine only holds indices into the bytes it has read.
pub proof fn lemma_run_phase_ok(bytes: Seq<u8>, n: int, s: ParseHttpRequestSettings)
    requires
        0 <= n <= bytes.len(),
    ensures
        sp_run(bytes, n, s) matches SpecParse::Running(req, ph) ==> phase_ok(ph, n),
    decreases n,
{
    if n > 0 {
        lemma_run_phase_ok(bytes, n - 1, s);
    }
}

/// Checks a version field such as `HTTP/1.1`.
pub fn version_from_data(data: &[u8]) -> (r: Result<HttpVersion, VersionError>)
    ensures
        r == sp_version_of(data@),
{
    if data.len() != VERSION_LEN {
        return Err(VersionError::WrongLen);
    }
    let pre = vstd::slice::slice_subrange(data, 0, 5);
    proof {
        assert(data@.take(5) =~= pre@);
    }
    if !bytes_eq(pre, "HTTP/".as_bytes()) {
        return Err(VersionError::WrongText);
    }
    let ver = vstd::slice::slice_subrange(data, 5, 8);
    proof {
        assert(data@.skip(5) =~= ver@);
    }
    if bytes_eq(ver, "1.1".as_bytes()) {
        Ok(HttpVersion::Http1_1)
    } else if bytes_eq(ver, "1.0".as_bytes()) {
        Ok(HttpVersion::Http1_0)
    } else {
        Err(VersionError::UnsupportedProtocol)
    }
}

/// The machine phase that an executable parser state stands for.
pub open spec fn phase_model(ps: ParseState) -> SpecPhase {
    match ps {
        ParseState::Method => SpecPhase::Method,
        ParseState::Path(p) => SpecPhase::Path(p as int),
        ParseState::Query(q) => SpecPhase::Query(q as int),
        ParseState::Version(v) => SpecPhase::Version(v as int),
        ParseState::Header(h, sep) => SpecPhase::Header(h as int, sep as int),
    }
}

/// The machine request value that a partly filled `RequestData` stands for.
pub open spec fn req_model(r: RequestData) -> SpecRequest {
    SpecRequest {
        method_end: r.method_end_index as int,
        path: (r.path_indices.0 as int, r.path_indices.1 as int),
        query: (r.raw_query_indices.0 as int, r.raw_query_indices.1 as int),
        version: r.version,
        headers: r.headers@.map_values(|h: Header| (h.name@, h.value@)),
        connection: r.connection_type,
        content_len: r.content_len,
        decoded_path: r.decoded_path@,
    }
}

/// Incremental HTTP request head parser. Bytes are fed in chunks; the
/// parser scans on from where the last chunk stopped and never rescans.
pub struct Parser {
    /// The request being filled in, holding all bytes fed so far.
    request: RequestData,
    /// What is being read next.
    parse_state: ParseState,
}

/// What one byte of input did to the parser: the head went on, the head is
/// complete, or parsing failed.
enum StepResult {
    Continue,
    Done,
    Fail(RequestError),
}

impl Parser {
    /// The bytes fed so far and not yet handed back.
    pub closed spec fn buffered(self) -> Seq<u8> {
        self.request.raw@
    }

    /// The parser's state agrees with the machine run over its buffered
    /// bytes, for the given settings.
    pub closed spec fn wf(self, s: ParseHttpRequestSettings) -> bool {
        sp_run(self.buffered(), self.buffered().len() as int, s) == SpecParse::Running(
            req_model(self.request),
            phase_model(self.parse_state),
        )
    }

    /// A fresh parser, ready for the first request under any settings.
    pub fn new() -> (r: Parser)
        ensures
            forall|s: ParseHttpRequestSettings| #[trigger] r.wf(s),
            r.buffered() == Seq::<u8>::empty(),
    {
        let p = Parser { parse_state: ParseState::Method, request: RequestData::new() };
        proof {
            assert forall|s: ParseHttpRequestSettings| #[trigger] p.wf(s) by {
                assert(req_model(p.request) =~= sp_empty_req());
                assert(p.buffered().len() == 0);
            }
        }
        p
    }

    /// The `Connection` disposition a header sets, if it is one.
    pub fn header_is_connection_type(&self, header: &Header) -> (r: Option<ConnectionType>)
        ensures
            r == if header.name@ == "Connection"@ {
                if header.value@ == "keep-alive"@ {
                    Some(ConnectionType::KeepAlive)
                } else if header.value@ == "close"@ {
                    Some(ConnectionType::Close)
                } else {
                    None::<ConnectionType>
                }
            } else {
                None::<ConnectionType>
            },
    {
        if crate::bytes::str_eq(header.name.as_str(), "Connection") {
            if crate::bytes::str_eq(header.value.as_str(), "keep-alive") {
                return Some(ConnectionType::KeepAlive);
            } else if crate::bytes::str_eq(header.value.as_str(), "close") {
                return Some(ConnectionType::Close);
            }
        }
        None
    }

    /// The content length a header declares, if it is a `Content-Length`
    /// header; its value must be decimal digits and fit in `usize`.
    pub fn header_is_content_length(&self, header: &Header) -> (r: Result<
        Option<usize>,
        RequestError,
    >)
        ensures
            r == if header.name@ == "Content-Length"@ {
                match sp_content_len_of(vstd::utf8::encode_utf8(header.value@)) {
                    Ok(n) => Ok::<Option<usize>, RequestError>(Some(n)),
                    Err(e) => Err::<Option<usize>, RequestError>(e),
                }
            } else {
                Ok::<Option<usize>, RequestError>(None)
            },
    {
        if !crate::bytes::str_eq(header.name.as_str(), "Content-Length") {
            return Ok(None);
        }
        let vb = header.value.as_str().as_bytes();
        if vb.len() == 0 {
            return Err(RequestError::ContentLengthParseError);
        }
        let first = vb[0];
        if first < 48 || first > 57 {
            return Err(RequestError::ContentLengthParseError);
        }
        match parse_dec_usize(vb) {
            Some(n) => Ok(Some(n)),
            None => Err(RequestError::ContentLengthParseError),
        }
    }

    /// One byte in the method phase.
    fn step_method(
        &mut self,
        b: u8,
        i: usize,
        parse_settings: &ParseHttpRequestSettings,
        Ghost(all): Ghost<Seq<u8>>,
    ) -> (r: Option<RequestError>)
        requires
            old(self).parse_state is Method,
            old(self).request.raw@ == all,
            i < all.len(),
            i < usize::MAX,
            b == all[i as int],
            sp_run(all, i as int, *parse_settings) == SpecParse::Running(
                req_model(old(self).request),
                phase_model(old(self).parse_state),
            ),
        ensures
            final(self).request.raw@ == all,
            match r {
                None => sp_run(all, i as int + 1, *parse_settings) == SpecParse::Running(
                    req_model(final(self).request),
                    phase_model(final(self).parse_state),
                ),
                Some(e) => e != RequestError::Partial && sp_run(all, i as int + 1, *parse_settings)
                    == SpecParse::Failed(e),
            },
    {
        let ghost s = *parse_settings;
        let ghost m_req = req_model(self.request);
        let ghost pre = all.take(i as int + 1);
        proof {
            assert(pre.len() - 1 == i as int);
            assert(pre[i as int] == b);
            assert(sp_run(all, i as int + 1, s) == sp_step_method(m_req, pre, s));
        }
        if b == SP {
            self.request.method_end_index = i;
            self.parse_state = ParseState::Path(i + 1);
            proof {
                assert(req_model(self.request) =~= SpecRequest { method_end: i as int, ..m_req });
            }
            None
        } else if b == LF {
            Some(RequestError::RequestLine)
        } else if i >= parse_settings.method_len_limit as usize {
            Some(RequestError::MethodLenLimit)
        } else {
            None
        }
    }

    /// One byte in the path phase.
    fn step_path(
        &mut self,
        b: u8,
        i: usize,
        p: usize,
        parse_settings: &ParseHttpRequestSettings,
        Ghost(all): Ghost<Seq<u8>>,
    ) -> (r: Option<RequestError>)
        requires
            old(self).parse_state == ParseState::Path(p),
            old(self).request.raw@ == all,
            i < all.len(),
            i < usize::MAX,
            p <= i,
            b == all[i as int],
            sp_run(all, i as int, *parse_settings) == SpecParse::Running(
                req_model(old(self).request),
                phase_model(old(self).parse_state),
            ),
        ensures
            final(self).request.raw@ == all,
            match r {
                None => sp_run(all, i as int + 1, *parse_settings) == SpecParse::Running(
                    req_model(final(self).request),
                    phase_model(final(self).parse_state),
                ),
                Some(e) => e != RequestError::Partial && sp_run(all, i as int + 1, *parse_settings)
                    == SpecParse::Failed(e),
            },
    {
        let ghost s = *parse_settings;
        let ghost m_req = req_model(self.request);
        let ghost pre = all.take(i as int + 1);
        proof {
            assert(pre.len() - 1 == i as int);
            assert(pre[i as int] == b);
            assert(sp_run(all, i as int + 1, s) == sp_step_path(m_req, p as int, pre, s));
        }
        if b == SP || b == QMARK {
            self.request.path_indices = (p, i);
            let sl = vstd::slice::slice_subrange(self.request.raw.as_slice(), p, i);
            proof {
                assert(sl@ =~= pre.subrange(p as int, i as int));
            }
            match pct_decode_utf8(sl) {
                Some(dp) => {
                    self.request.decoded_path = dp;
                }
                None => {
                    self.request.decoded_path = String::new();
                }
            }
            if b == SP {
                self.parse_state = ParseState::Version(i + 1);
            } else {
                self.parse_state = ParseState::Query(i + 1);
            }
            proof {
                assert(req_model(self.request) =~= SpecRequest {
                    path: (p as int, i as int),
                    decoded_path: sp_decoded_path(pre.subrange(p as int, i as int)),
                    ..m_req
                });
            }
            None
        } else if b == LF {
            Some(RequestError::RequestLine)
        } else if i - p >= parse_settings.path_len_limit as usize {
            Some(RequestError::PathLenLimit)
        } else {
            None
        }
    }

    /// One byte in the query phase.
    fn step_query(
        &mut self,
        b: u8,
        i: usize,
        q: usize,
        parse_settings: &ParseHttpRequestSettings,
        Ghost(all): Ghost<Seq<u8>>,
    ) -> (r: Option<RequestError>)
        requires
            old(self).parse_state == ParseState::Query(q),
            old(self).request.raw@ == all,
            i < all.len(),
            i < usize::MAX,
            q <= i,
            b == all[i as int],
            sp_run(all, i as int, *parse_settings) == SpecParse::Running(
                req_model(old(self).request),
                phase_model(old(self).parse_state),
            ),
        ensures
            final(self).request.raw@ == all,
            match r {
                None => sp_run(all, i as int + 1, *parse_settings) == SpecParse::Running(
                    req_model(final(self).request),
                    phase_model(final(self).parse_state),
                ),
                Some(e) => e != RequestError::Partial && sp_run(all, i as int + 1, *parse_settings)
                    == SpecParse::Failed(e),
            },
    {
        let ghost s = *parse_settings;
        let ghost m_req = req_model(self.request);
        let ghost pre = all.take(i as int + 1);
        proof {
            assert(pre.len() - 1 == i as int);
            assert(pre[i as int] == b);
            assert(sp_run(all, i as int + 1, s) == sp_step_query(m_req, q as int, pre, s));
        }
        if b == SP {
            self.request.raw_query_indices = (q, i);
            self.parse_state = ParseState::Version(i + 1);
            proof {
                assert(req_model(self.request) =~= SpecRequest {
                    query: (q as int, i as int),
                    ..m_req
                });
            }
            None
        } else if b == LF {
            Some(RequestError::RequestLine)
        } else if i - q >= parse_settings.query_len_limit as usize {
            Some(RequestError::QueryLenLimit)
        } else {
            None
        }
    }

    /// One byte in the version phase.
    fn step_version(
        &mut self,
        b: u8,
        i: usize,
        v: usize,
        parse_settings: &ParseHttpRequestSettings,
        Ghost(all): Ghost<Seq<u8>>,
    ) -> (r: Option<RequestError>)
        requires
            old(self).parse_state == ParseState::Version(v),
            old(self).request.raw@ == all,
            i < all.len(),
            i < usize::MAX,
            v <= i,
            b == all[i as int],
            sp_run(all, i as int, *parse_settings) == SpecParse::Running(
                req_model(old(self).request),
                phase_model(old(self).parse_state),
            ),
        ensures
            final(self).request.raw@ == all,
            match r {
                None => sp_run(all, i as int + 1, *parse_settings) == SpecParse::Running(
                    req_model(final(self).request),
                    phase_model(final(self).parse_state),
                ),
                Some(e) => e != RequestError::Partial && sp_run(all, i as int + 1, *parse_settings)
                    == SpecParse::Failed(e),
            },
    {
        let ghost s = *parse_settings;
        let ghost m_req = req_model(self.request);
        let ghost pre = all.take(i as int + 1);
        proof {
            assert(pre.len() - 1 == i as int);
            assert(pre[i as int] == b);
            assert(sp_run(all, i as int + 1, s) == sp_step_version(m_req, v as int, pre, s));
        }
        if b == LF {
            let data = if i >= 1 && v <= i - 1 {
                vstd::slice::slice_subrange(self.request.raw.as_slice(), v, i - 1)
            } else {
                vstd::slice::slice_subrange(self.request.raw.as_slice(), 0, 0)
            };
            proof {
                if i >= 1 && v as int <= i as int - 1 {
                    assert(data@ =~= pre.subrange(v as int, i as int - 1));
                } else {
                    assert(data@ =~= Seq::<u8>::empty());
                }
            }
            match version_from_data(data) {
                Ok(ver) => {
                    self.request.version = ver;
                    self.parse_state = ParseState::Header(i + 1, 0);
                    proof {
                        assert(req_model(self.request) =~= SpecRequest { version: ver, ..m_req });
                    }
                    None
                }
                Err(VersionError::UnsupportedProtocol) => Some(RequestError::UnsupportedProtocol),
                Err(_) => Some(RequestError::WrongVersion),
            }
        } else if i - v > VERSION_LEN {
            Some(RequestError::VersionLenLimit)
        } else {
            None
        }
    }

    /// The tail of a header line once its closing CR LF is seen: cut out
    /// name and value, derive the `Connection` and `Content-Length` fields,
    /// and store the header.
    fn finish_header_line(
        &mut self,
        i: usize,
        h: usize,
        sep: usize,
        Ghost(all): Ghost<Seq<u8>>,
        Ghost(s): Ghost<ParseHttpRequestSettings>,
    ) -> (r: Option<RequestError>)
        requires
            old(self).parse_state == ParseState::Header(h, sep),
            old(self).request.raw@ == all,
            i < all.len(),
            i < usize::MAX,
            3 <= h <= i,
            sep == 0 || (h < sep && sep <= i - 1),
        ensures
            final(self).request.raw@ == all,
            match r {
                None => SpecParse::Running(
                    req_model(final(self).request),
                    phase_model(final(self).parse_state),
                ) == sp_finish_header(
                    req_model(old(self).request),
                    all.take(i as int + 1),
                    h as int,
                    sep as int,
                    s,
                ),
                Some(e) => e != RequestError::Partial && SpecParse::Failed(e) == sp_finish_header(
                    req_model(old(self).request),
                    all.take(i as int + 1),
                    h as int,
                    sep as int,
                    s,
                ),
            },
    {
        let ghost m_req = req_model(self.request);
        let ghost pre = all.take(i as int + 1);
        proof {
            assert(pre.len() - 1 == i as int);
        }
        if sep == 0 || i - sep < 2 || sep <= h {
            return Some(RequestError::WrongHeader);
        }
        proof {
            assert(pre[sep as int + 1] == all[sep as int + 1]);
        }
        let value_idx = if self.request.raw[sep + 1] == SP {
            sep + 2
        } else {
            sep + 1
        };
        if value_idx >= i - 1 {
            return Some(RequestError::WrongHeader);
        }
        let name_sl = vstd::slice::slice_subrange(self.request.raw.as_slice(), h, sep);
        proof {
            assert(name_sl@ =~= pre.subrange(h as int, sep as int));
        }
        let name = match crate::decode::utf8_to_string(name_sl) {
            Some(n) => n,
            None => {
                return Some(RequestError::WrongHeader);
            }
        };
        let value_sl = vstd::slice::slice_subrange(
            self.request.raw.as_slice(),
            value_idx,
            i - 1,
        );
        proof {
            assert(value_sl@ =~= pre.subrange(value_idx as int, i as int - 1));
        }
        let value = match crate::decode::utf8_to_string(value_sl) {
            Some(v) => v,
            None => {
                return Some(RequestError::WrongHeader);
            }
        };
        let header = Header { name, value };
        let ghost nb = pre.subrange(h as int, sep as int);
        let ghost vb = pre.subrange(value_idx as int, i as int - 1);
        let ghost hname = header.name@;
        let ghost hvalue = header.value@;
        proof {
            broadcast use vstd::utf8::decode_utf8_encode_utf8;

            assert(vstd::utf8::encode_utf8(hname) == nb);
            assert(vstd::utf8::encode_utf8(hvalue) == vb);
            crate::bytes::lemma_str_bytes_eq(hname, "Connection"@);
            crate::bytes::lemma_str_bytes_eq(hname, "Content-Length"@);
            crate::bytes::lemma_str_bytes_eq(hvalue, "keep-alive"@);
            crate::bytes::lemma_str_bytes_eq(hvalue, "close"@);
            assert((hname == "Connection"@) == (nb == "Connection".spec_bytes()));
            assert((hname == "Content-Length"@) == (nb == "Content-Length".spec_bytes()));
            assert((hvalue == "keep-alive"@) == (vb == "keep-alive".spec_bytes()));
            assert((hvalue == "close"@) == (vb == "close".spec_bytes()));
        }
        if self.request.connection_type.is_none() {
            let ct = self.header_is_connection_type(&header);
            self.request.connection_type = ct;
        }
        if self.request.content_len.is_none() {
            match self.header_is_content_length(&header) {
                Ok(opt) => {
                    self.request.content_len = opt;
                }
                Err(e) => {
                    return Some(e);
                }
            }
        }
        self.request.headers.push(header);
        self.parse_state = ParseState::Header(i + 1, 0);
        proof {
            assert(req_model(self.request).headers =~= m_req.headers.push(
                (decode_utf8(nb), decode_utf8(vb)),
            ));
            assert(req_model(self.request) =~= SpecRequest {
                headers: m_req.headers.push((decode_utf8(nb), decode_utf8(vb))),
                connection: self.request.connection_type,
                content_len: self.request.content_len,
                ..m_req
            });
        }
        None
    }

    /// One byte in the header phase.
    fn step_header(
        &mut self,
        b: u8,
        i: usize,
        h: usize,
        sep: usize,
        parse_settings: &ParseHttpRequestSettings,
        Ghost(all): Ghost<Seq<u8>>,
    ) -> (r: StepResult)
        requires
            old(self).parse_state == ParseState::Header(h, sep),
            old(self).request.raw@ == all,
            i < all.len(),
            i < usize::MAX,
            3 <= h <= i,
            sep == 0 || (h < sep && sep <= i - 1),
            b == all[i as int],
            sp_run(all, i as int, *parse_settings) == SpecParse::Running(
                req_model(old(self).request),
                phase_model(old(self).parse_state),
            ),
        ensures
            final(self).request.raw@ == all,
            match r {
                StepResult::Continue => sp_run(all, i as int + 1, *parse_settings)
                    == SpecParse::Running(
                    req_model(final(self).request),
                    phase_model(final(self).parse_state),
                ),
                StepResult::Done => sp_run(all, i as int + 1, *parse_settings)
                    == SpecParse::Complete(req_model(final(self).request), i as int + 1),
                StepResult::Fail(e) => e != RequestError::Partial && sp_run(
                    all,
                    i as int + 1,
                    *parse_settings,
                ) == SpecParse::Failed(e),
            },
    {
        let ghost s = *parse_settings;
        let ghost m_req = req_model(self.request);
        let ghost pre = all.take(i as int + 1);
        proof {
            assert(pre.len() - 1 == i as int);
            assert(pre[i as int] == b);
            if i >= 1 {
                assert(pre[i as int - 1] == all[i as int - 1]);
            }
            if i >= 2 {
                assert(pre[i as int - 2] == all[i as int - 2]);
            }
            if i >= 3 {
                assert(pre[i as int - 3] == all[i as int - 3]);
            }
            assert(sp_run(all, i as int + 1, s) == sp_step_header(
                m_req,
                h as int,
                sep as int,
                pre,
                s,
            ));
        }
        if b == LF && i >= 3 && self.request.raw[i - 3] == CR && self.request.raw[i - 2] == LF
            && self.request.raw[i - 1] == CR {
            StepResult::Done
        } else if sep == 0 && i - h > parse_settings.header_name_len_limit as usize {
            StepResult::Fail(RequestError::HeaderNameLenLimit)
        } else if sep != 0 && i - sep > parse_settings.header_value_len_limit as usize + 2 {
            StepResult::Fail(RequestError::HeaderValueLenLimit)
        } else if b == COLON && sep == 0 {
            if self.request.headers.len() >= parse_settings.headers_count_limit as usize {
                StepResult::Fail(RequestError::HeadersCountLimit)
            } else if i <= h {
                StepResult::Fail(RequestError::EmptyHeaderName)
            } else {
                self.parse_state = ParseState::Header(h, i);
                StepResult::Continue
            }
        } else if b == LF && i >= 1 && self.request.raw[i - 1] == CR {
            match self.finish_header_line(i, h, sep, Ghost(all), Ghost(s)) {
                None => StepResult::Continue,
                Some(e) => StepResult::Fail(e),
            }
        } else {
            StepResult::Continue
        }
    }

    /// Feeds a chunk of bytes. Returns the parsed request and the surplus
    /// bytes after its head once the blank line is seen, `Err(Partial)`
    /// while the head is not complete, and any other error when the head is
    /// rejected; all three as the machine `sp_run` decides over all bytes
    /// fed so far. After a completed head or an error the parser starts
    /// over with an empty buffer.
    pub fn parse_yet(&mut self, buf: &[u8], parse_settings: &ParseHttpRequestSettings) -> (r:
        Result<(RequestData, Vec<u8>), RequestError>)
        requires
            old(self).wf(*parse_settings),
        ensures
            final(self).wf(*parse_settings),
            ({
                let all = old(self).buffered() + buf@;
                let s = *parse_settings;
                match r {
                    Ok((req, surplus)) => {
                        &&& sp_run(all, all.len() as int, s) == SpecParse::Complete(
                            req_model(req),
                            req.raw@.len() as int,
                        )
                        &&& req.raw@ == all.take(req.raw@.len() as int)
                        &&& surplus@ == all.skip(req.raw@.len() as int)
                        &&& final(self).buffered() == Seq::<u8>::empty()
                    }
                    Err(e) => {
                        if e == RequestError::Partial {
                            &&& sp_run(all, all.len() as int, s) is Running
                            &&& final(self).buffered() == all
                        } else {
                            &&& sp_run(all, all.len() as int, s) == SpecParse::Failed(e)
                            &&& final(self).buffered() == Seq::<u8>::empty()
                        }
                    }
                }
            }),
    {
        let ghost s = *parse_settings;
        let prev_idx = self.request.raw.len();
        push_bytes(&mut self.request.raw, buf);
        let ghost all = self.request.raw@;
        let total = self.request.raw.len();
        proof {
            assert(old(self).buffered().len() == prev_idx as int);
            assert(all.take(prev_idx as int) =~= old(self).buffered());
            assert(old(self).buffered().take(prev_idx as int) =~= old(self).buffered());
            lemma_run_prefix(all, old(self).buffered(), prev_idx as int, s);
        }
        let mut i = prev_idx;
        while i < total
            invariant
                prev_idx <= i <= total,
                total == all.len(),
                s == *parse_settings,
                all == old(self).buffered() + buf@,
                self.request.raw@ == all,
                sp_run(all, i as int, s) == SpecParse::Running(
                    req_model(self.request),
                    phase_model(self.parse_state),
                ),
            decreases total - i,
        {
            proof {
                lemma_run_phase_ok(all, i as int, s);
            }
            let b = self.request.raw[i];
            let st = self.parse_state;
            match st {
                ParseState::Method => {
                    if let Some(e) = self.step_method(b, i, parse_settings, Ghost(all)) {
                        return self.fail(e, Ghost(all), Ghost(i as int), Ghost(s));
                    }
                }
                ParseState::Path(p) => {
                    if let Some(e) = self.step_path(b, i, p, parse_settings, Ghost(all)) {
                        return self.fail(e, Ghost(all), Ghost(i as int), Ghost(s));
                    }
                }
                ParseState::Query(q) => {
                    if let Some(e) = self.step_query(b, i, q, parse_settings, Ghost(all)) {
                        return self.fail(e, Ghost(all), Ghost(i as int), Ghost(s));
                    }
                }
                ParseState::Version(v) => {
                    if let Some(e) = self.step_version(b, i, v, parse_settings, Ghost(all)) {
                        return self.fail(e, Ghost(all), Ghost(i as int), Ghost(s));
                    }
                }
                ParseState::Header(h, sep) => {
                    match self.step_header(b, i, h, sep, parse_settings, Ghost(all)) {
                        StepResult::Fail(e) => {
                            return self.fail(e, Ghost(all), Ghost(i as int), Ghost(s));
                        }
                        StepResult::Done => {
                            let request_len = i + 1;
                            proof {
                                lemma_run_absorb(all, i as int + 1, all.len() as int, s);
                            }
                            let surplus = vstd::slice::slice_to_vec(
                                vstd::slice::slice_subrange(
                                    self.request.raw.as_slice(),
                                    request_len,
                                    total,
                                ),
                            );
                            self.request.raw.truncate(request_len);
                            let mut done = RequestData::new();
                            core::mem::swap(&mut done, &mut self.request);
                            self.parse_state = ParseState::Method;
                            proof {
                                assert(done.raw@ =~= all.take(request_len as int));
                                assert(surplus@ =~= all.skip(request_len as int));
                                assert(req_model(self.request) =~= sp_empty_req());
                                assert(self.buffered() =~= Seq::<u8>::empty());
                            }
                            return Ok((done, surplus));
                        }
                        StepResult::Continue => {}
                    }
                }
            }
            i = i + 1;
        }
        Err(RequestError::Partial)
    }

    /// Discards the state after a fatal parse error, leaving a fresh
    /// parser, and hands the error on.
    fn fail(
        &mut self,
        e: RequestError,
        Ghost(all): Ghost<Seq<u8>>,
        Ghost(i): Ghost<int>,
        Ghost(s): Ghost<ParseHttpRequestSettings>,
    ) -> (r: Result<(RequestData, Vec<u8>), RequestError>)
        requires
            e != RequestError::Partial,
            0 <= i,
            i + 1 <= all.len(),
            sp_run(all, i + 1, s) == SpecParse::Failed(e),
        ensures
            r == Err::<(RequestData, Vec<u8>), RequestError>(e),
            forall|s2: ParseHttpRequestSettings| #[trigger] final(self).wf(s2),
            final(self).buffered() == Seq::<u8>::empty(),
            sp_run(all, all.len() as int, s) == SpecParse::Failed(e),
    {
        proof {
            lemma_run_absorb(all, i + 1, all.len() as int, s);
        }
        self.request = RequestData::new();
        self.parse_state = ParseState::Method;
        proof {
            assert forall|s2: ParseHttpRequestSettings| #[trigger] self.wf(s2) by {
                assert(req_model(self.request) =~= sp_empty_req());
                assert(self.buffered().len() == 0);
            }
        }
        Err(e)
    }
}

} // verus!
