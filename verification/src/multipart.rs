use vstd::prelude::*;
use vstd::string::StringSliceAdditionalSpecFns;
use vstd::utf8::encode_utf8;
use crate::bytes::{bytes_eq, push_bytes};
use crate::request::RequestData;
use crate::request::spec_header_value;

verus! {

pub const DASH: u8 = 45;

/// What the multipart parser reads next.
#[derive(Debug, Clone, Copy, PartialEq, Eq, Structural)]
pub enum MultipartState {
    /// Skipping the preamble before the first boundary.
    FindFirstBoundary,
    /// Reading the headers of one part, up to the blank line.
    Disposition,
    /// Reading the data of one part, up to the next boundary.
    ReadData,
}

/// Why a multipart parser could not be built.
#[derive(Debug, PartialEq, Eq, Structural)]
pub enum MultipartError {
    /// The request has no `Content-Type` header.
    NoContentTypeHeader,
    /// The `Content-Type` value has no `boundary=` parameter.
    NoBoundaryInContentTypeHeader,
    /// The `boundary=` parameter is empty.
    EmptyBoundaryInHeader,
    /// A boundary may be at most 70 characters long.
    BoundaryLenLimit { len: usize },
}

/// The headers of one part, as raw bytes.
#[derive(Debug)]
pub struct Disposition {
    raw: Vec<u8>,
}

impl Disposition {
    /// The raw header bytes of the part.
    pub closed spec fn spec_raw(self) -> Seq<u8> {
        self.raw@
    }

    /// The raw header bytes of the part.
    pub fn raw(&self) -> (r: &[u8])
        ensures
            r@ == self.spec_raw(),
    {
        self.raw.as_slice()
    }
}

/// One event of the multipart parser.
pub enum MultipartParserEvent {
    /// The headers of a new part.
    Disposition(Disposition),
    /// Data of the current part; `end` is false while more of the same
    /// part may follow.
    Data { data_part: Vec<u8>, end: bool },
    /// The closing boundary was seen; no more parts follow.
    Finished,
}

/// The mathematical shadow of one parser event.
pub ghost enum SpecMpEvent {
    Disposition(Seq<u8>),
    Data(Seq<u8>, bool),
    Finished,
}

/// The shadow of one event.
pub open spec fn mp_event_view(e: MultipartParserEvent) -> SpecMpEvent {
    match e {
        MultipartParserEvent::Disposition(d) => SpecMpEvent::Disposition(d.spec_raw()),
        MultipartParserEvent::Data { data_part, end } => SpecMpEvent::Data(data_part@, end),
        MultipartParserEvent::Finished => SpecMpEvent::Finished,
    }
}

/// The shadows of a run of events, in order.
pub open spec fn mp_events_view(es: Seq<MultipartParserEvent>) -> Seq<SpecMpEvent>
    decreases es.len(),
{
    if es.len() == 0 {
        Seq::empty()
    } else {
        seq![mp_event_view(es[0])] + mp_events_view(es.drop_first())
    }
}

proof fn lemma_mp_events_view_push(es: Seq<MultipartParserEvent>, e: MultipartParserEvent)
    ensures
        mp_events_view(es.push(e)) == mp_events_view(es) + seq![mp_event_view(e)],
    decreases es.len(),
{
    if es.len() == 0 {
        assert(es.push(e).drop_first() =~= Seq::<MultipartParserEvent>::empty());
        assert(es.push(e)[0] == e);
        assert(mp_events_view(Seq::<MultipartParserEvent>::empty()) =~= Seq::<SpecMpEvent>::empty());
        assert(mp_events_view(es) =~= Seq::<SpecMpEvent>::empty());
        assert(mp_events_view(es.push(e)) =~= mp_events_view(es) + seq![mp_event_view(e)]);
    } else {
        assert(es.push(e).drop_first() =~= es.drop_first().push(e));
        lemma_mp_events_view_push(es.drop_first(), e);
        assert(es.push(e)[0] == es[0]);
        assert(mp_events_view(es.push(e)) =~= mp_events_view(es) + seq![mp_event_view(e)]);
    }
}

/// The first position at or past `j` where two dashes stand, if any.
pub open spec fn mp_first_dashes(buf: Seq<u8>, j: int) -> Option<int>
    decreases buf.len() - j,
    when 0 <= j
{
    if j + 1 >= buf.len() {
        None
    } else if buf[j] == DASH && buf[j + 1] == DASH {
        Some(j)
    } else {
        mp_first_dashes(buf, j + 1)
    }
}

/// The first position at or past `j` where CR LF CR LF stands, if any.
pub open spec fn mp_first_crlf2(buf: Seq<u8>, j: int) -> Option<int>
    decreases buf.len() - j,
    when 0 <= j
{
    if j + 3 >= buf.len() {
        None
    } else if buf[j] == 13 && buf[j + 1] == 10 && buf[j + 2] == 13 && buf[j + 3] == 10 {
        Some(j)
    } else {
        mp_first_crlf2(buf, j + 1)
    }
}

/// Where the boundary after the first two dashes of the buffer stands,
/// and whether it is the closing boundary (two more dashes) rather than
/// an opening one (CR LF). Only the first two dashes of the buffer are
/// consulted; nothing is reported until enough bytes are here to decide.
pub open spec fn spec_find_boundary(buf: Seq<u8>, boundary: Seq<u8>) -> Option<(int, bool)> {
    if buf.len() >= boundary.len() + 4 {
        match mp_first_dashes(buf, 0) {
            Some(p) => {
                let bpos = p + 2;
                if buf.len() >= bpos + boundary.len() + 2 {
                    if buf.subrange(bpos, bpos + boundary.len()) == boundary {
                        if buf[bpos + boundary.len()] == 13 && buf[bpos + boundary.len() + 1]
                            == 10 {
                            Some((bpos, false))
                        } else if buf[bpos + boundary.len()] == DASH && buf[bpos + boundary.len()
                            + 1] == DASH {
                            Some((bpos, true))
                        } else {
                            None
                        }
                    } else {
                        None
                    }
                } else {
                    None
                }
            }
            None => None,
        }
    } else {
        None
    }
}

proof fn lemma_first_dashes_bounds(buf: Seq<u8>, j: int)
    requires
        0 <= j,
    ensures
        mp_first_dashes(buf, j) matches Some(p) ==> j <= p && p + 1 < buf.len(),
    decreases buf.len() - j,
{
    if j + 1 >= buf.len() {
    } else if buf[j] == DASH && buf[j + 1] == DASH {
    } else {
        lemma_first_dashes_bounds(buf, j + 1);
    }
}

proof fn lemma_first_crlf2_bounds(buf: Seq<u8>, j: int)
    requires
        0 <= j,
    ensures
        mp_first_crlf2(buf, j) matches Some(p) ==> j <= p && p + 3 < buf.len(),
    decreases buf.len() - j,
{
    if j + 3 >= buf.len() {
    } else if buf[j] == 13 && buf[j + 1] == 10 && buf[j + 2] == 13 && buf[j + 3] == 10 {
    } else {
        lemma_first_crlf2_bounds(buf, j + 1);
    }
}

/// A reported boundary lies inside the buffer, past its leading dashes.
pub proof fn lemma_find_boundary_bounds(buf: Seq<u8>, boundary: Seq<u8>)
    ensures
        spec_find_boundary(buf, boundary) matches Some((bpos, closing)) ==> 2 <= bpos && bpos
            + boundary.len() + 2 <= buf.len(),
{
    if buf.len() >= boundary.len() + 4 {
        lemma_first_dashes_bounds(buf, 0);
    }
}

/// What one `push` does: events out, the next state, and the bytes kept.
#[verifier::ext_equal]
pub ghost struct MpStep {
    pub events: Seq<SpecMpEvent>,
    pub state: MultipartState,
    pub buf: Seq<u8>,
}

/// The multipart machine run over the buffered bytes until it needs more
/// data: the preamble is skipped up to the first boundary (keeping only a
/// window of the tail while searching), each part's headers are cut at
/// the blank line, part data runs to the next boundary, and the closing
/// boundary finishes the stream.
pub open spec fn mp_run(st: MultipartState, boundary: Seq<u8>, buf: Seq<u8>) -> MpStep
    decreases buf.len(),
    via mp_run_decreases
{
    match st {
        MultipartState::FindFirstBoundary => {
            match spec_find_boundary(buf, boundary) {
                Some((bpos, closing)) => {
                    if closing {
                        MpStep {
                            events: seq![SpecMpEvent::Finished],
                            state: MultipartState::Disposition,
                            buf: Seq::empty(),
                        }
                    } else {
                        let r = mp_run(
                            MultipartState::Disposition,
                            boundary,
                            buf.skip(bpos + boundary.len() + 2),
                        );
                        r
                    }
                }
                None => {
                    let window = 2 * (boundary.len() + 4);
                    MpStep {
                        events: Seq::empty(),
                        state: MultipartState::FindFirstBoundary,
                        buf: if buf.len() > window {
                            buf.skip(buf.len() - window)
                        } else {
                            buf
                        },
                    }
                }
            }
        }
        MultipartState::Disposition => {
            if buf.len() > 4 {
                match mp_first_crlf2(buf, 0) {
                    Some(pos) => {
                        let left: int = if buf[0] == 13 && buf[1] == 10 {
                            2
                        } else {
                            0
                        };
                        let raw = if left <= pos {
                            buf.subrange(left, pos)
                        } else {
                            Seq::empty()
                        };
                        let r = mp_run(MultipartState::ReadData, boundary, buf.skip(pos + 4));
                        MpStep {
                            events: seq![SpecMpEvent::Disposition(raw)] + r.events,
                            state: r.state,
                            buf: r.buf,
                        }
                    }
                    None => MpStep { events: Seq::empty(), state: st, buf },
                }
            } else {
                MpStep { events: Seq::empty(), state: st, buf }
            }
        }
        MultipartState::ReadData => {
            match spec_find_boundary(buf, boundary) {
                Some((bpos, closing)) => {
                    let data = buf.subrange(0, bpos - 2);
                    let head: Seq<SpecMpEvent> = if data.len() > 0 {
                        seq![SpecMpEvent::Data(data, true)]
                    } else {
                        Seq::empty()
                    };
                    if closing {
                        MpStep {
                            events: head + seq![SpecMpEvent::Finished],
                            state: MultipartState::Disposition,
                            buf: Seq::empty(),
                        }
                    } else {
                        let r = mp_run(
                            MultipartState::Disposition,
                            boundary,
                            buf.skip(bpos + boundary.len()),
                        );
                        MpStep { events: head + r.events, state: r.state, buf: r.buf }
                    }
                }
                None => MpStep {
                    events: seq![SpecMpEvent::Data(buf, false)],
                    state: st,
                    buf: Seq::empty(),
                },
            }
        }
    }
}

#[via_fn]
proof fn mp_run_decreases(st: MultipartState, boundary: Seq<u8>, buf: Seq<u8>) {
    lemma_find_boundary_bounds(buf, boundary);
    lemma_first_crlf2_bounds(buf, 0);
}

/// The first position at or past `j` where `boundary=` starts in the
/// `Content-Type` value, if any.
pub open spec fn mp_first_boundary_param(ct: Seq<u8>, j: int) -> Option<int>
    decreases ct.len() - j,
    when 0 <= j
{
    if j + 9 > ct.len() {
        None
    } else if ct.subrange(j, j + 9) == "boundary=".spec_bytes() {
        Some(j)
    } else {
        mp_first_boundary_param(ct, j + 1)
    }
}

/// The boundary a `Content-Type` value declares: everything after the
/// first `boundary=`.
pub open spec fn spec_boundary_of(ct: Seq<u8>) -> Result<Seq<u8>, MultipartError> {
    if ct.len() == 0 {
        Err(MultipartError::NoContentTypeHeader)
    } else {
        match mp_first_boundary_param(ct, 0) {
            None => Err(MultipartError::NoBoundaryInContentTypeHeader),
            Some(i) => {
                let b = ct.skip(i + 9);
                if b.len() == 0 {
                    Err(MultipartError::EmptyBoundaryInHeader)
                } else if b.len() > 70 {
                    Err(MultipartError::BoundaryLenLimit { len: b.len() as usize })
                } else {
                    Ok(b)
                }
            }
        }
    }
}

/// Finds the first two dashes of the buffer.
fn find_dashes(buf: &[u8]) -> (r: Option<usize>)
    ensures
        match r {
            Some(p) => p + 1 < buf@.len() && mp_first_dashes(buf@, 0) == Some(p as int),
            None => mp_first_dashes(buf@, 0) is None,
        },
{
    if buf.len() < 2 {
        return None;
    }
    let last = buf.len() - 1;
    let mut j: usize = 0;
    while j < last
        invariant
            0 <= j <= last,
            last == buf@.len() - 1,
            mp_first_dashes(buf@, 0) == mp_first_dashes(buf@, j as int),
        decreases last - j,
    {
        if buf[j] == DASH && buf[j + 1] == DASH {
            return Some(j);
        }
        j = j + 1;
    }
    None
}

/// Finds the first CR LF CR LF of the buffer.
fn find_crlf2(buf: &[u8]) -> (r: Option<usize>)
    ensures
        match r {
            Some(p) => p + 3 < buf@.len() && mp_first_crlf2(buf@, 0) == Some(p as int),
            None => mp_first_crlf2(buf@, 0) is None,
        },
{
    if buf.len() < 4 {
        return None;
    }
    let last = buf.len() - 3;
    let mut j: usize = 0;
    while j < last
        invariant
            0 <= j <= last,
            last == buf@.len() - 3,
            mp_first_crlf2(buf@, 0) == mp_first_crlf2(buf@, j as int),
        decreases last - j,
    {
        if buf[j] == 13 && buf[j + 1] == 10 && buf[j + 2] == 13 && buf[j + 3] == 10 {
            return Some(j);
        }
        j = j + 1;
    }
    None
}

/// Finds the boundary after the first two dashes of the buffer, and
/// whether it is the closing one.
pub fn find_boundary(buf: &[u8], boundary: &[u8]) -> (r: Option<(usize, bool)>)
    ensures
        match r {
            Some((bpos, closing)) => spec_find_boundary(buf@, boundary@) == Some(
                (bpos as int, closing),
            ) && 2 <= bpos && bpos + boundary@.len() + 2 <= buf@.len(),
            None => spec_find_boundary(buf@, boundary@) is None,
        },
{
    if buf.len() < 4 || buf.len() - 4 < boundary.len() {
        return None;
    }
    match find_dashes(buf) {
        Some(p) => {
            let bpos = p + 2;
            let limit = buf.len() - boundary.len() - 2;
            if bpos > limit {
                return None;
            }
            let here = vstd::slice::slice_subrange(buf, bpos, bpos + boundary.len());
            proof {
                assert(here@ =~= buf@.subrange(bpos as int, bpos as int + boundary@.len()));
            }
            if !bytes_eq(here, boundary) {
                return None;
            }
            let b0 = buf[bpos + boundary.len()];
            let b1 = buf[bpos + boundary.len() + 1];
            if b0 == 13 && b1 == 10 {
                Some((bpos, false))
            } else if b0 == DASH && b1 == DASH {
                Some((bpos, true))
            } else {
                None
            }
        }
        None => None,
    }
}

/// Finds the first `boundary=` of a `Content-Type` value.
fn find_boundary_param(ct: &[u8]) -> (r: Option<usize>)
    ensures
        match r {
            Some(i) => mp_first_boundary_param(ct@, 0) == Some(i as int) && i + 9 <= ct@.len(),
            None => mp_first_boundary_param(ct@, 0) is None,
        },
{
    let param = "boundary=".as_bytes();
    if ct.len() < 9 {
        return None;
    }
    let last = ct.len() - 9;
    let mut j: usize = 0;
    while j <= last
        invariant
            0 <= j <= last + 1,
            last == ct@.len() - 9,
            last <= usize::MAX - 9,
            mp_first_boundary_param(ct@, 0) == mp_first_boundary_param(ct@, j as int),
            param@ == "boundary=".spec_bytes(),
        decreases last + 1 - j,
    {
        let here = vstd::slice::slice_subrange(ct, j, j + 9);
        proof {
            assert(here@ =~= ct@.subrange(j as int, j as int + 9));
        }
        if bytes_eq(here, param) {
            return Some(j);
        }
        j = j + 1;
    }
    None
}

/// An incremental parser for `multipart/form-data` bodies.
pub struct MultipartParser {
    state: MultipartState,
    buf: Vec<u8>,
    boundary: Vec<u8>,
}

impl MultipartParser {
    /// The state of the machine.
    pub closed spec fn spec_state(self) -> MultipartState {
        self.state
    }

    /// The bytes kept between calls.
    pub closed spec fn spec_buf(self) -> Seq<u8> {
        self.buf@
    }

    /// The boundary without its leading dashes.
    pub closed spec fn spec_boundary(self) -> Seq<u8> {
        self.boundary@
    }

    /// A well-formed parser: its boundary is non-empty and, per RFC 2046,
    /// at most 70 characters long.
    pub closed spec fn wf(self) -> bool {
        1 <= self.boundary@.len() <= 70
    }

    /// Builds a parser from the request's `Content-Type` header, whose
    /// `boundary=` parameter gives the boundary; by RFC 2046 a boundary
    /// has at most 70 characters.
    pub fn new(request: &RequestData) -> (r: Result<MultipartParser, MultipartError>)
        ensures
            ({
                let ct = match spec_header_value(request.headers@, "Content-Type"@) {
                    Some(v) => encode_utf8(v),
                    None => Seq::<u8>::empty(),
                };
                match r {
                    Ok(p) => {
                        &&& p.wf()
                        &&& spec_boundary_of(ct) == Ok::<Seq<u8>, MultipartError>(
                            p.spec_boundary(),
                        )
                        &&& p.spec_state() == MultipartState::FindFirstBoundary
                        &&& p.spec_buf() == Seq::<u8>::empty()
                    }
                    Err(e) => spec_boundary_of(ct) == Err::<Seq<u8>, MultipartError>(e),
                }
            }),
    {
        let content_type_val = match request.header_value("Content-Type") {
            Some(v) => v,
            None => "",
        };
        let ct = content_type_val.as_bytes();
        proof {
            reveal_strlit("");
            assert(""@ =~= Seq::<char>::empty());
            assert(encode_utf8(Seq::<char>::empty()) =~= Seq::<u8>::empty());
        }
        if ct.len() == 0 {
            return Err(MultipartError::NoContentTypeHeader);
        }
        let boundary_index = match find_boundary_param(ct) {
            Some(i) => i,
            None => {
                return Err(MultipartError::NoBoundaryInContentTypeHeader);
            }
        };
        let ct_len = ct.len();
        let boundary = vstd::slice::slice_to_vec(
            vstd::slice::slice_subrange(ct, boundary_index + 9, ct_len),
        );
        proof {
            assert(boundary@ =~= ct@.skip(boundary_index as int + 9));
        }
        if boundary.len() == 0 {
            return Err(MultipartError::EmptyBoundaryInHeader);
        }
        if boundary.len() > 70 {
            return Err(MultipartError::BoundaryLenLimit { len: boundary.len() });
        }
        Ok(MultipartParser { state: MultipartState::FindFirstBoundary, buf: Vec::new(), boundary })
    }

    /// Feeds a chunk of the body. Returns the events the new bytes
    /// complete, as the machine `mp_run` decides over the kept bytes and
    /// the chunk.
    #[verifier::rlimit(100)]
    pub fn push(&mut self, data: &[u8]) -> (r: Vec<MultipartParserEvent>)
        requires
            old(self).wf(),
        ensures
            final(self).wf(),
            ({
                let step = mp_run(
                    old(self).spec_state(),
                    old(self).spec_boundary(),
                    old(self).spec_buf() + data@,
                );
                &&& mp_events_view(r@) == step.events
                &&& final(self).spec_state() == step.state
                &&& final(self).spec_buf() == step.buf
                &&& final(self).spec_boundary() == old(self).spec_boundary()
            }),
    {
        push_bytes(&mut self.buf, data);
        let ghost boundary = self.boundary@;
        let mut events: Vec<MultipartParserEvent> = Vec::new();
        let ghost goal = mp_run(self.state, boundary, self.buf@);
        proof {
            assert(mp_events_view(events@) =~= Seq::<SpecMpEvent>::empty());
            assert(goal.events =~= mp_events_view(events@) + mp_run(
                self.state,
                boundary,
                self.buf@,
            ).events);
        }
        loop
            invariant
                boundary == old(self).spec_boundary(),
                1 <= boundary.len() <= 70,
                goal == mp_run(
                    old(self).spec_state(),
                    old(self).spec_boundary(),
                    old(self).spec_buf() + data@,
                ),
                self.boundary@ == boundary,
                goal.events == mp_events_view(events@) + mp_run(
                    self.state,
                    boundary,
                    self.buf@,
                ).events,
                goal.state == mp_run(self.state, boundary, self.buf@).state,
                goal.buf == mp_run(self.state, boundary, self.buf@).buf,
            decreases self.buf@.len(),
        {
            let ghost cur = mp_run(self.state, boundary, self.buf@);
            let ghost ev0 = events@;
            match self.state {
                MultipartState::FindFirstBoundary => {
                    match find_boundary(self.buf.as_slice(), self.boundary.as_slice()) {
                        Some((bpos, closing)) => {
                            self.state = MultipartState::Disposition;
                            if closing {
                                proof {
                                    assert(cur =~~= MpStep {
                                        events: seq![SpecMpEvent::Finished],
                                        state: MultipartState::Disposition,
                                        buf: Seq::empty(),
                                    });
                                }
                                events.push(MultipartParserEvent::Finished);
                                self.buf.clear();
                                proof {
                                    lemma_mp_events_view_push(ev0, MultipartParserEvent::Finished);
                                    assert(mp_events_view(events@) =~= mp_events_view(ev0)
                                        + cur.events);
                                    assert(goal.events =~= mp_events_view(events@));
                                }
                                return events;
                            }
                            let total = self.buf.len();
                            let cut = bpos + self.boundary.len() + 2;
                            let rest = vstd::slice::slice_to_vec(
                                vstd::slice::slice_subrange(self.buf.as_slice(), cut, total),
                            );
                            proof {
                                assert(rest@ =~= self.buf@.skip(cut as int));
                                assert(cur =~~= mp_run(
                                    MultipartState::Disposition,
                                    boundary,
                                    self.buf@.skip(cut as int),
                                ));
                            }
                            self.buf = rest;
                        }
                        None => {
                            let window = 2 * (self.boundary.len() + 4);
                            if self.buf.len() > window {
                                let total = self.buf.len();
                                let rest = vstd::slice::slice_to_vec(
                                    vstd::slice::slice_subrange(
                                        self.buf.as_slice(),
                                        total - window,
                                        total,
                                    ),
                                );
                                proof {
                                    assert(rest@ =~= self.buf@.skip(
                                        self.buf@.len() - 2 * (boundary.len() + 4),
                                    ));
                                }
                                self.buf = rest;
                            }
                            proof {
                                assert(mp_events_view(events@) =~= goal.events);
                                assert(self.buf@ =~= goal.buf);
                            }
                            return events;
                        }
                    }
                }
                MultipartState::Disposition => {
                    if self.buf.len() <= 4 {
                        proof {
                            assert(mp_events_view(events@) =~= goal.events);
                        }
                        return events;
                    }
                    match find_crlf2(self.buf.as_slice()) {
                        Some(pos) => {
                            let left: usize = if self.buf[0] == 13 && self.buf[1] == 10 {
                                2
                            } else {
                                0
                            };
                            let raw = if left <= pos {
                                vstd::slice::slice_to_vec(
                                    vstd::slice::slice_subrange(self.buf.as_slice(), left, pos),
                                )
                            } else {
                                Vec::new()
                            };
                            proof {
                                if left as int <= pos as int {
                                    assert(raw@ =~= self.buf@.subrange(left as int, pos as int));
                                } else {
                                    assert(raw@ =~= Seq::<u8>::empty());
                                }
                                assert(cur.events =~= seq![SpecMpEvent::Disposition(raw@)] + mp_run(
                                    MultipartState::ReadData,
                                    boundary,
                                    self.buf@.skip(pos as int + 4),
                                ).events);
                                assert(cur.state == mp_run(
                                    MultipartState::ReadData,
                                    boundary,
                                    self.buf@.skip(pos as int + 4),
                                ).state);
                                assert(cur.buf == mp_run(
                                    MultipartState::ReadData,
                                    boundary,
                                    self.buf@.skip(pos as int + 4),
                                ).buf);
                            }
                            let dsp = Disposition { raw };
                            events.push(MultipartParserEvent::Disposition(dsp));
                            proof {
                                lemma_mp_events_view_push(ev0, events@.last());
                                assert(events@.drop_last() =~= ev0);
                            }
                            let cut = pos + 4;
                            let total = self.buf.len();
                            let rest = vstd::slice::slice_to_vec(
                                vstd::slice::slice_subrange(self.buf.as_slice(), cut, total),
                            );
                            proof {
                                assert(rest@ =~= self.buf@.skip(cut as int));
                                assert(goal.events =~= mp_events_view(events@) + mp_run(
                                    MultipartState::ReadData,
                                    boundary,
                                    rest@,
                                ).events);
                            }
                            self.buf = rest;
                            self.state = MultipartState::ReadData;
                        }
                        None => {
                            proof {
                                assert(mp_events_view(events@) =~= goal.events);
                            }
                            return events;
                        }
                    }
                }
                MultipartState::ReadData => {
                    match find_boundary(self.buf.as_slice(), self.boundary.as_slice()) {
                        Some((bpos, closing)) => {
                            let data_part = vstd::slice::slice_to_vec(
                                vstd::slice::slice_subrange(self.buf.as_slice(), 0, bpos - 2),
                            );
                            let ghost head: Seq<SpecMpEvent> = if data_part@.len() > 0 {
                                seq![SpecMpEvent::Data(data_part@, true)]
                            } else {
                                Seq::empty()
                            };
                            proof {
                                assert(data_part@ =~= self.buf@.subrange(0, bpos as int - 2));
                            }
                            if data_part.len() > 0 {
                                events.push(
                                    MultipartParserEvent::Data { data_part, end: true },
                                );
                                proof {
                                    lemma_mp_events_view_push(ev0, events@.last());
                                    assert(events@.drop_last() =~= ev0);
                                    assert(mp_events_view(events@) =~= mp_events_view(ev0) + head);
                                }
                            } else {
                                proof {
                                    assert(mp_events_view(events@) =~= mp_events_view(ev0) + head);
                                }
                            }
                            let ghost ev1 = events@;
                            self.state = MultipartState::Disposition;
                            if closing {
                                proof {
                                    assert(cur.events =~= head + seq![SpecMpEvent::Finished]);
                                    assert(cur.state == MultipartState::Disposition);
                                    assert(cur.buf =~= Seq::<u8>::empty());
                                }
                                events.push(MultipartParserEvent::Finished);
                                self.buf.clear();
                                proof {
                                    lemma_mp_events_view_push(ev1, MultipartParserEvent::Finished);
                                    assert(mp_events_view(events@) =~= mp_events_view(ev0)
                                        + cur.events);
                                    assert(goal.events =~= mp_events_view(events@));
                                    assert(self.buf@ =~= goal.buf);
                                }
                                return events;
                            }
                            let total = self.buf.len();
                            let cut = bpos + self.boundary.len();
                            let rest = vstd::slice::slice_to_vec(
                                vstd::slice::slice_subrange(self.buf.as_slice(), cut, total),
                            );
                            proof {
                                assert(rest@ =~= self.buf@.skip(cut as int));
                                assert(cur.events =~= head + mp_run(
                                    MultipartState::Disposition,
                                    boundary,
                                    rest@,
                                ).events);
                                assert(cur.state == mp_run(
                                    MultipartState::Disposition,
                                    boundary,
                                    rest@,
                                ).state);
                                assert(cur.buf == mp_run(
                                    MultipartState::Disposition,
                                    boundary,
                                    rest@,
                                ).buf);
                                assert(goal.events =~= mp_events_view(events@) + mp_run(
                                    MultipartState::Disposition,
                                    boundary,
                                    rest@,
                                ).events);
                            }
                            self.buf = rest;
                        }
                        None => {
                            proof {
                                assert(cur.events =~= seq![
                                    SpecMpEvent::Data(self.buf@, false)
                                ]);
                            }
                            let mut data_part: Vec<u8> = Vec::new();
                            core::mem::swap(&mut data_part, &mut self.buf);
                            events.push(MultipartParserEvent::Data { data_part, end: false });
                            proof {
                                lemma_mp_events_view_push(ev0, events@.last());
                                assert(events@.drop_last() =~= ev0);
                                assert(mp_events_view(events@) =~= goal.events);
                                assert(self.buf@ =~= goal.buf);
                            }
                            return events;
                        }
                    }
                }
            }
        }
    }
}

} // verus!
