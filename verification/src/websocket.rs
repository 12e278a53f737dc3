use vstd::prelude::*;
use vstd::string::StringSliceAdditionalSpecFns;
use crate::bytes::push_bytes;
use sha1::Digest;
use base64::Engine;

verus! {

pub const CONTINUATION_OPCODE: u8 = 0x0;

pub const TEXT_OPCODE: u8 = 0x1;

pub const BINARY_OPCODE: u8 = 0x2;

pub const CLOSE_OPCODE: u8 = 0x8;

/// The fixed GUID appended to `Sec-WebSocket-Key` for the handshake.
pub const HANDSHAKE_GUID: &'static str = "258EAFA5-E914-47DA-95CA-C5AB0DC85B11";

/// Why a frame was rejected.
#[derive(Debug, PartialEq, Eq, Structural)]
pub enum ParseFrameError {
    /// Reserved for opcode policing, which is left to the application; the
    /// parser accepts every four-bit opcode.
    UnsupportedOpcode,
    /// A client-to-server frame without the mask bit; the server must
    /// reject it.
    UnmaskedClientMaessage,
    /// The declared payload length exceeds the configured ceiling.
    PayloadLimit,
}

/// What went wrong on a websocket connection.
#[derive(Debug)]
pub enum WebsocketError {
    /// The stream failed on read.
    ReadError(std::io::Error),
    /// The frame was rejected.
    ParseFrameError(ParseFrameError),
    /// Registering with the poller failed.
    PollRegisterError(std::io::Error),
}

/// An error of the handshake.
#[derive(Debug, PartialEq, Eq, Structural)]
pub enum WebsocketHandshakeError {
    NoSecWebSocketKeyHeader,
}

/// The big-endian bytes of `n`, `k` bytes long.
pub open spec fn be_bytes(n: int, k: nat) -> Seq<u8>
    decreases k,
{
    if k == 0 {
        Seq::empty()
    } else {
        be_bytes(n / 256, (k - 1) as nat) + seq![(n % 256) as u8]
    }
}

/// The value of a big-endian byte sequence.
pub open spec fn be_val(s: Seq<u8>) -> int
    decreases s.len(),
{
    if s.len() == 0 {
        0
    } else {
        be_val(s.drop_last()) * 256 + s.last()
    }
}

/// A big-endian byte sequence is worth less than 256 to the power of its
/// length.
pub proof fn lemma_be_val_bound(s: Seq<u8>)
    ensures
        0 <= be_val(s) < vstd::arithmetic::power::pow(256, s.len()),
    decreases s.len(),
{
    reveal(vstd::arithmetic::power::pow);
    vstd::arithmetic::power::lemma_pow_positive(256, s.len());
    if s.len() > 0 {
        lemma_be_val_bound(s.drop_last());
        vstd::arithmetic::power::lemma_pow_positive(256, (s.len() - 1) as nat);
        assert(vstd::arithmetic::power::pow(256, s.len()) == 256 * vstd::arithmetic::power::pow(
            256,
            (s.len() - 1) as nat,
        ));
    }
}

/// Reading back the big-endian bytes of `n` gives `n`.
pub proof fn lemma_be_val_be_bytes(n: int, k: nat)
    requires
        0 <= n < vstd::arithmetic::power::pow(256, k),
    ensures
        be_bytes(n, k).len() == k,
        be_val(be_bytes(n, k)) == n,
    decreases k,
{
    reveal(vstd::arithmetic::power::pow);
    if k == 0 {
    } else {
        assert(vstd::arithmetic::power::pow(256, k) == 256 * vstd::arithmetic::power::pow(
            256,
            (k - 1) as nat,
        ));
        assert(n / 256 < vstd::arithmetic::power::pow(256, (k - 1) as nat)) by (nonlinear_arith)
            requires
                n < 256 * vstd::arithmetic::power::pow(256, (k - 1) as nat),
                0 <= n,
                vstd::arithmetic::power::pow(256, (k - 1) as nat) > 0,
        ;
        lemma_be_val_be_bytes(n / 256, (k - 1) as nat);
        assert(be_bytes(n, k).drop_last() =~= be_bytes(n / 256, (k - 1) as nat));
        assert(be_bytes(n, k).last() == (n % 256) as u8);
    }
}

/// The values of the powers of 256 that the frame length encodings use.
pub proof fn lemma_pow_256_facts()
    ensures
        vstd::arithmetic::power::pow(256, 2) == 0x1_0000,
        vstd::arithmetic::power::pow(256, 8) == 0x1_0000_0000_0000_0000,
{
    reveal_with_fuel(vstd::arithmetic::power::pow, 9);
}

/// The length field of a serialized frame: the 7-bit length for small
/// payloads, `126` plus two big-endian bytes up to 65535, and `127` plus
/// eight big-endian bytes beyond that.
pub open spec fn ws_len_bytes(n: int) -> Seq<u8> {
    if n < 126 {
        seq![n as u8]
    } else if n <= 65535 {
        seq![126u8] + be_bytes(n, 2)
    } else {
        seq![127u8] + be_bytes(n, 8)
    }
}

/// A serialized server frame: FIN set, no mask, minimal length encoding,
/// the payload in clear.
pub open spec fn ws_frame_bytes(opcode: u8, payload: Seq<u8>) -> Seq<u8> {
    seq![(opcode | 0x80) as u8] + ws_len_bytes(payload.len() as int) + payload
}

/// Outcome of reading one client frame from the front of a byte sequence.
#[verifier::ext_equal]
pub ghost enum WsParse {
    /// The bytes do not hold a whole frame yet.
    NeedMore,
    /// The frame was rejected.
    Failed(ParseFrameError),
    /// A whole frame: its first byte's fields, where the masking key
    /// starts, and the payload length. The frame occupies
    /// `key_idx + 4 + payload_len` bytes.
    Done { fin: bool, opcode: u8, key_idx: int, payload_len: int },
}

/// Reading of the frame tail once the masking key position and payload
/// length are known.
pub open spec fn ws_parse_tail(bytes: Seq<u8>, b0: u8, key_idx: int, plen: int) -> WsParse {
    if bytes.len() < key_idx + 4 + plen {
        WsParse::NeedMore
    } else {
        WsParse::Done {
            fin: b0 & 0x80 != 0,
            opcode: b0 & 0x0f,
            key_idx,
            payload_len: plen,
        }
    }
}

/// Reading of one client frame from the front of `bytes`: first byte FIN
/// and opcode, second byte mask bit (required) and 7-bit length, an
/// extended length of two or eight big-endian bytes when the 7-bit length
/// is 126 or 127, the four-byte masking key, and the payload. Every length,
/// the 7-bit field included, must stay within `limit`.
pub open spec fn ws_parse(bytes: Seq<u8>, limit: usize) -> WsParse {
    if bytes.len() < 2 {
        WsParse::NeedMore
    } else {
        let b0 = bytes[0];
        let b1 = bytes[1];
        if b1 & 0x80 == 0 {
            WsParse::Failed(ParseFrameError::UnmaskedClientMaessage)
        } else {
            let len7 = (b1 & 0x7f) as int;
            if len7 > limit {
                WsParse::Failed(ParseFrameError::PayloadLimit)
            } else if len7 < 126 {
                ws_parse_tail(bytes, b0, 2, len7)
            } else if len7 == 126 {
                if bytes.len() < 4 {
                    WsParse::NeedMore
                } else {
                    let l = be_val(bytes.subrange(2, 4));
                    if l > limit {
                        WsParse::Failed(ParseFrameError::PayloadLimit)
                    } else {
                        ws_parse_tail(bytes, b0, 4, l)
                    }
                }
            } else {
                if bytes.len() < 10 {
                    WsParse::NeedMore
                } else {
                    let l = be_val(bytes.subrange(2, 10));
                    if l > limit {
                        WsParse::Failed(ParseFrameError::PayloadLimit)
                    } else {
                        ws_parse_tail(bytes, b0, 10, l)
                    }
                }
            }
        }
    }
}

/// The bytes of a parsed frame with its payload unmasked in place: the
/// payload bytes are XORed with the masking key, the bytes before the
/// payload stay as they came.
pub open spec fn ws_decoded(bytes: Seq<u8>, key_idx: int, plen: int) -> Seq<u8> {
    Seq::new(
        (key_idx + 4 + plen) as nat,
        |j: int|
            if j < key_idx + 4 {
                bytes[j]
            } else {
                bytes[j] ^ bytes[key_idx + ((j - (key_idx + 4)) % 4)]
            },
    )
}

/// Builds one server frame from the opcode and payload: FIN set, unmasked,
/// minimal length encoding.
pub fn frame(opcode: u8, payload: &[u8]) -> (r: Vec<u8>)
    ensures
        r@ == ws_frame_bytes(opcode, payload@),
{
    let data_len = payload.len();
    let mut result: Vec<u8> = Vec::new();
    result.push(opcode | 0x80);
    if data_len < 126 {
        result.push(data_len as u8);
        proof {
            assert(result@ =~= seq![(opcode | 0x80) as u8] + ws_len_bytes(payload@.len() as int));
        }
    } else if data_len <= 65535 {
        result.push(126);
        proof {
            lemma_pow_256_facts();
        }
        push_be_bytes(&mut result, data_len as u64, 2);
        proof {
            assert(result@ =~= seq![(opcode | 0x80) as u8] + ws_len_bytes(payload@.len() as int));
        }
    } else {
        result.push(127);
        proof {
            lemma_pow_256_facts();
        }
        push_be_bytes(&mut result, data_len as u64, 8);
        proof {
            assert(result@ =~= seq![(opcode | 0x80) as u8] + ws_len_bytes(payload@.len() as int));
        }
    }
    push_bytes(&mut result, payload);
    proof {
        assert(result@ =~= ws_frame_bytes(opcode, payload@));
    }
    result
}

/// Appends the `k` big-endian bytes of `v` to `dst`.
fn push_be_bytes(dst: &mut Vec<u8>, v: u64, k: usize)
    requires
        k <= 8,
        v < vstd::arithmetic::power::pow(256, k as nat),
    ensures
        final(dst)@ == old(dst)@ + be_bytes(v as int, k as nat),
{
    let mut tmp: Vec<u8> = Vec::new();
    let mut rest = v;
    let mut n: usize = 0;
    while n < k
        invariant
            n <= k,
            be_bytes(v as int, k as nat) == be_bytes(rest as int, (k - n) as nat) + tmp@,
        decreases k - n,
    {
        let mut next: Vec<u8> = Vec::new();
        next.push((rest % 256) as u8);
        push_bytes(&mut next, tmp.as_slice());
        proof {
            assert(be_bytes(rest as int, (k - n) as nat) == be_bytes(
                rest as int / 256,
                (k - n - 1) as nat,
            ) + seq![(rest as int % 256) as u8]);
            assert(be_bytes(rest as int / 256, (k - n - 1) as nat) + next@ =~= be_bytes(
                rest as int,
                (k - n) as nat,
            ) + tmp@);
        }
        tmp = next;
        rest = rest / 256;
        n = n + 1;
    }
    proof {
        assert(be_bytes(rest as int, 0) =~= Seq::<u8>::empty());
        assert(be_bytes(v as int, k as nat) =~= tmp@);
    }
    push_bytes(dst, tmp.as_slice());
}

/// A parsed frame, RFC 6455 base framing. The server rejects unmasked
/// client frames, so a parsed frame always carries a masking key; its
/// payload is stored already unmasked.
#[derive(Debug)]
pub struct Frame {
    /// FIN bit of the first byte.
    fin: bool,
    /// Low four bits of the first byte.
    opcode: u8,
    /// The whole frame, its payload region unmasked in place.
    buf: Vec<u8>,
    /// Index of the payload in `buf`.
    payload_index: usize,
    /// Length of the payload.
    payload_len: usize,
    /// Index of the masking key in `buf`.
    masking_key_index: usize,
}

impl Frame {
    /// The FIN bit.
    pub closed spec fn spec_fin(self) -> bool {
        self.fin
    }

    /// The opcode.
    pub closed spec fn spec_opcode(self) -> u8 {
        self.opcode
    }

    /// The stored frame bytes, payload unmasked.
    pub closed spec fn spec_buf(self) -> Seq<u8> {
        self.buf@
    }

    /// Index of the payload in the stored bytes.
    pub closed spec fn spec_payload_index(self) -> int {
        self.payload_index as int
    }

    /// Length of the payload.
    pub closed spec fn spec_payload_len(self) -> int {
        self.payload_len as int
    }

    /// Index of the masking key in the stored bytes.
    pub closed spec fn spec_masking_key_index(self) -> int {
        self.masking_key_index as int
    }

    /// The unmasked payload.
    pub open spec fn spec_payload(self) -> Seq<u8> {
        self.spec_buf().subrange(
            self.spec_payload_index(),
            self.spec_payload_index() + self.spec_payload_len(),
        )
    }

    /// Well-placed indices: the payload follows the four-byte masking key
    /// and runs to the end of the stored bytes.
    pub closed spec fn wf(self) -> bool {
        &&& self.payload_index == self.masking_key_index + 4
        &&& 2 <= self.masking_key_index
        &&& self.payload_index + self.payload_len == self.buf@.len()
    }

    /// The payload, already unmasked.
    pub fn payload(&self) -> (r: &[u8])
        requires
            self.wf(),
        ensures
            r@ == self.spec_payload(),
    {
        let end = self.buf.len();
        vstd::slice::slice_subrange(self.buf.as_slice(), self.payload_index, end)
    }

    /// The FIN bit: this is the final fragment of a message.
    pub fn fin(&self) -> (r: bool)
        ensures
            r == self.spec_fin(),
    {
        self.fin
    }

    /// The opcode; any four-bit value is passed through, its meaning is the
    /// application's concern.
    pub fn opcode(&self) -> (r: u8)
        ensures
            r == self.spec_opcode(),
    {
        self.opcode
    }

    /// The four-byte masking key, when the stored indices hold one.
    pub fn mask(&self) -> (r: Option<&[u8]>)
        ensures
            match r {
                Some(m) => self.spec_masking_key_index() != 0 && self.spec_masking_key_index() + 4
                    <= self.spec_buf().len() && m@ == self.spec_buf().subrange(
                    self.spec_masking_key_index(),
                    self.spec_masking_key_index() + 4,
                ),
                None => self.spec_masking_key_index() == 0 || self.spec_masking_key_index() + 4
                    > self.spec_buf().len(),
            },
    {
        if self.masking_key_index == 0 || self.buf.len() < 4 || self.masking_key_index > self.buf.len()
            - 4 {
            return None;
        }
        Some(
            vstd::slice::slice_subrange(
                self.buf.as_slice(),
                self.masking_key_index,
                self.masking_key_index + 4,
            ),
        )
    }

    /// The raw stored bytes of the frame, the payload region unmasked.
    pub fn raw(&self) -> (r: &[u8])
        ensures
            r@ == self.spec_buf(),
    {
        self.buf.as_slice()
    }

    /// The opcode is text.
    pub fn is_text(&self) -> (r: bool)
        ensures
            r == (self.spec_opcode() == TEXT_OPCODE),
    {
        self.opcode == TEXT_OPCODE
    }

    /// The opcode is binary.
    pub fn is_binary(&self) -> (r: bool)
        ensures
            r == (self.spec_opcode() == BINARY_OPCODE),
    {
        self.opcode == BINARY_OPCODE
    }

    /// The opcode is continuation.
    pub fn is_continuation(&self) -> (r: bool)
        ensures
            r == (self.spec_opcode() == CONTINUATION_OPCODE),
    {
        self.opcode == CONTINUATION_OPCODE
    }

    /// The opcode is close.
    pub fn is_close(&self) -> (r: bool)
        ensures
            r == (self.spec_opcode() == CLOSE_OPCODE),
    {
        self.opcode == CLOSE_OPCODE
    }
}

/// Incremental frame parser: accumulates bytes until they hold one whole
/// frame. What a call returns is a function of all bytes fed so far and
/// the limit alone, so cutting the input into chunks cannot change the
/// outcome.
pub struct Parser {
    buf: Vec<u8>,
}

impl Parser {
    /// The bytes fed so far and not yet handed back.
    pub closed spec fn buffered(self) -> Seq<u8> {
        self.buf@
    }

    /// A fresh parser.
    pub fn new() -> (r: Parser)
        ensures
            r.buffered() == Seq::<u8>::empty(),
    {
        Parser { buf: Vec::new() }
    }

    /// Feeds a chunk of bytes. Returns a parsed frame and the surplus bytes
    /// after it as soon as the accumulated bytes hold a whole frame, `None`
    /// while they do not, and an error when the frame is rejected; all
    /// three as `ws_parse` decides over all bytes fed so far.
    #[verifier::rlimit(50)]
    pub fn parse_yet(&mut self, tmp_buf: &[u8], payload_limit: usize) -> (r: Result<
        Option<(Frame, Vec<u8>)>,
        ParseFrameError,
    >)
        ensures
            ({
                let all = old(self).buffered() + tmp_buf@;
                match r {
                    Ok(None) => ws_parse(all, payload_limit) is NeedMore && final(self).buffered()
                        == all,
                    Ok(Some((f, surplus))) => {
                        &&& ws_parse(all, payload_limit) == (WsParse::Done {
                            fin: f.spec_fin(),
                            opcode: f.spec_opcode(),
                            key_idx: f.spec_masking_key_index(),
                            payload_len: f.spec_payload_len(),
                        })
                        &&& f.wf()
                        &&& f.spec_payload_index() == f.spec_masking_key_index() + 4
                        &&& f.spec_buf() == ws_decoded(
                            all,
                            f.spec_masking_key_index(),
                            f.spec_payload_len(),
                        )
                        &&& surplus@ == all.skip(f.spec_buf().len() as int)
                        &&& final(self).buffered() == Seq::<u8>::empty()
                    }
                    Err(e) => ws_parse(all, payload_limit) == WsParse::Failed(e)
                        && final(self).buffered() == all,
                }
            }),
    {
        push_bytes(&mut self.buf, tmp_buf);
        let ghost all = self.buf@;
        let n = self.buf.len();
        if n < 2 {
            return Ok(None);
        }
        let b0 = self.buf[0];
        let b1 = self.buf[1];
        if b1 & 0x80 == 0 {
            return Err(ParseFrameError::UnmaskedClientMaessage);
        }
        let len7 = (b1 & 0x7f) as usize;
        if len7 > payload_limit {
            return Err(ParseFrameError::PayloadLimit);
        }
        let key_idx: usize;
        let plen: usize;
        if len7 < 126 {
            key_idx = 2;
            plen = len7;
        } else if len7 == 126 {
            if n < 4 {
                return Ok(None);
            }
            let l = self.buf[2] as usize * 256 + self.buf[3] as usize;
            proof {
                let sub = all.subrange(2, 4);
                assert(sub.drop_last() =~= seq![all[2]]);
                assert(seq![all[2]].drop_last() =~= Seq::<u8>::empty());
                assert(be_val(Seq::<u8>::empty()) == 0);
                assert(be_val(seq![all[2]]) == all[2]);
                assert(be_val(sub) == all[2] * 256 + all[3]);
            }
            if l > payload_limit {
                return Err(ParseFrameError::PayloadLimit);
            }
            key_idx = 4;
            plen = l;
        } else {
            if n < 10 {
                return Ok(None);
            }
            let mut acc: u64 = 0;
            let mut j: usize = 2;
            proof {
                assert(all.subrange(2, 2) =~= Seq::<u8>::empty());
            }
            while j < 10
                invariant
                    2 <= j <= 10,
                    self.buf@ == all,
                    all.len() >= 10,
                    acc == be_val(all.subrange(2, j as int)),
                decreases 10 - j,
            {
                proof {
                    lemma_be_val_bound(all.subrange(2, j as int));
                    lemma_pow_256_facts();
                    reveal(vstd::arithmetic::power::pow);
                    vstd::arithmetic::power::lemma_pow_increases(256, (j - 2) as nat, 7);
                    assert(all.subrange(2, j as int + 1).drop_last() =~= all.subrange(2, j as int));
                }
                acc = acc * 256 + self.buf[j] as u64;
                j = j + 1;
            }
            proof {
                lemma_be_val_bound(all.subrange(2, 10));
            }
            if acc > payload_limit as u64 {
                return Err(ParseFrameError::PayloadLimit);
            }
            key_idx = 10;
            plen = acc as usize;
        }
        if n < key_idx + 4 {
            return Ok(None);
        }
        if plen > usize::MAX - (key_idx + 4) {
            // The buffer can never grow to hold such a frame.
            proof {
                assert(all.len() < key_idx + 4 + plen);
            }
            return Ok(None);
        }
        let frame_len = key_idx + 4 + plen;
        if n < frame_len {
            return Ok(None);
        }
        // A whole frame is here.
        let surplus = vstd::slice::slice_to_vec(
            vstd::slice::slice_subrange(self.buf.as_slice(), frame_len, n),
        );
        self.buf.truncate(frame_len);
        let mut fbuf: Vec<u8> = Vec::new();
        core::mem::swap(&mut fbuf, &mut self.buf);
        let m0 = fbuf[key_idx];
        let m1 = fbuf[key_idx + 1];
        let m2 = fbuf[key_idx + 2];
        let m3 = fbuf[key_idx + 3];
        let payload_index = key_idx + 4;
        let mut j = payload_index;
        while j < frame_len
            invariant
                payload_index <= j <= frame_len,
                frame_len == payload_index + plen,
                payload_index == key_idx + 4,
                fbuf@.len() == frame_len,
                frame_len <= all.len(),
                m0 == all[key_idx as int],
                m1 == all[key_idx as int + 1],
                m2 == all[key_idx as int + 2],
                m3 == all[key_idx as int + 3],
                forall|t: int|
                    payload_index <= t < j ==> fbuf@[t] == (all[t] ^ all[
                        key_idx as int + ((t - payload_index as int) % 4)
                    ]),
                forall|t: int| 0 <= t < payload_index ==> fbuf@[t] == all[t],
                forall|t: int| j <= t < frame_len ==> fbuf@[t] == all[t],
            decreases frame_len - j,
        {
            let k = (j - payload_index) % 4;
            let m = if k == 0 {
                m0
            } else if k == 1 {
                m1
            } else if k == 2 {
                m2
            } else {
                m3
            };
            let decoded_byte = fbuf[j] ^ m;
            fbuf[j] = decoded_byte;
            j = j + 1;
        }
        let result = Frame {
            fin: b0 & 0x80 > 0,
            opcode: b0 & 0x0f,
            buf: fbuf,
            payload_index,
            payload_len: plen,
            masking_key_index: key_idx,
        };
        proof {
            assert(result.spec_buf() =~= ws_decoded(all, key_idx as int, plen as int));
            assert(surplus@ =~= all.skip(key_idx as int + 4 + plen as int));
            assert(self.buffered() =~= Seq::<u8>::empty());
        }
        Ok(Some((result, surplus)))
    }
}

/// The length field of a masked client frame: as `ws_len_bytes`, with the
/// mask bit set on the first byte.
pub open spec fn ws_masked_len_bytes(n: int) -> Seq<u8> {
    if n < 126 {
        seq![(n + 128) as u8]
    } else if n <= 65535 {
        seq![254u8] + be_bytes(n, 2)
    } else {
        seq![255u8] + be_bytes(n, 8)
    }
}

/// A masked client frame: FIN set, mask bit set, minimal length encoding,
/// the four-byte key, and the payload XORed with the key.
pub open spec fn ws_masked_frame(opcode: u8, payload: Seq<u8>, key: Seq<u8>) -> Seq<u8> {
    seq![(opcode | 0x80) as u8] + ws_masked_len_bytes(payload.len() as int) + key + Seq::new(
        payload.len(),
        |j: int| payload[j] ^ key[j % 4],
    )
}

/// Round trip of the framing: a masked client frame built from an opcode
/// and payload parses back to exactly that opcode and payload, whatever
/// masking key the client chose and wherever the chunks were cut. The
/// serializer `ws_frame_bytes` emits the same payload unmasked, so echoing
/// a parsed frame reproduces it on the wire.
pub proof fn lemma_frame_round_trip(opcode: u8, payload: Seq<u8>, key: Seq<u8>, limit: usize)
    requires
        opcode < 16,
        key.len() == 4,
        payload.len() <= limit,
    ensures
        ({
            let m = ws_masked_frame(opcode, payload, key);
            let ki: int = if payload.len() < 126 {
                2
            } else if payload.len() <= 65535 {
                4
            } else {
                10
            };
            &&& ws_parse(m, limit) == (WsParse::Done {
                fin: true,
                opcode,
                key_idx: ki,
                payload_len: payload.len() as int,
            })
            &&& ws_decoded(m, ki, payload.len() as int).subrange(
                ki + 4,
                ki + 4 + payload.len() as int,
            ) == payload
        }),
{
    let plen = payload.len() as int;
    let b0 = (opcode | 0x80) as u8;
    let lenb = ws_masked_len_bytes(plen);
    let maskedp = Seq::new(payload.len(), |j: int| payload[j] ^ key[j % 4]);
    let m = ws_masked_frame(opcode, payload, key);
    let ki: int = if plen < 126 {
        2
    } else if plen <= 65535 {
        4
    } else {
        10
    };
    lemma_pow_256_facts();
    assert(b0 & 0x80 != 0 && b0 & 0x0f == opcode) by (bit_vector)
        requires
            b0 == (opcode | 0x80) as u8,
            opcode < 16,
    ;
    if plen < 126 {
        let x = plen as u8;
        assert(((x + 128) as u8) & 0x80 != 0 && (((x + 128) as u8) & 0x7f) == x) by (bit_vector)
            requires
                x < 126,
        ;
        assert(m[1] == (plen + 128) as u8);
    } else if plen <= 65535 {
        assert(254u8 & 0x80 != 0 && 254u8 & 0x7f == 126) by (bit_vector);
        assert(m[1] == 254u8);
        lemma_be_val_be_bytes(plen, 2);
        assert(m.subrange(2, 4) =~= be_bytes(plen, 2));
        assert(126 <= limit);
    } else {
        assert(255u8 & 0x80 != 0 && 255u8 & 0x7f == 127) by (bit_vector);
        assert(m[1] == 255u8);
        assert(plen < vstd::arithmetic::power::pow(256, 8));
        lemma_be_val_be_bytes(plen, 8);
        assert(m.subrange(2, 10) =~= be_bytes(plen, 8));
        assert(127 <= limit);
    }
    assert(m.len() == ki + 4 + plen);
    assert(forall|t: int| 0 <= t < 4 ==> m[ki + t] == key[t]);
    assert(forall|j: int| 0 <= j < plen ==> m[ki + 4 + j] == maskedp[j]);
    assert(ws_parse(m, limit) == (WsParse::Done {
        fin: true,
        opcode,
        key_idx: ki,
        payload_len: plen,
    }));
    let d = ws_decoded(m, ki, plen);
    assert forall|j: int| 0 <= j < plen implies d.subrange(ki + 4, ki + 4 + plen)[j] == payload[j] by {
        let a = payload[j];
        let k0 = key[j % 4];
        assert(d[ki + 4 + j] == m[ki + 4 + j] ^ m[ki + (j % 4)]);
        assert(m[ki + 4 + j] == a ^ k0);
        assert(m[ki + (j % 4)] == k0);
        assert((a ^ k0) ^ k0 == a) by (bit_vector);
    }
    assert(d.subrange(ki + 4, ki + 4 + plen) =~= payload);
}

/// The SHA-1 digest named, a function of the input bytes alone.
pub uninterp spec fn sha1_of(data: Seq<u8>) -> Seq<u8>;

/// The standard base64 encoding named, a function of the input bytes
/// alone.
pub uninterp spec fn base64_of(data: Seq<u8>) -> Seq<char>;

/// Relies on the sha1 crate's Sha1 through the Digest trait: the digest is
/// 20 bytes long and a function of the input bytes alone.
#[verifier::external_body]
fn sha1_digest(data: &[u8]) -> (r: Vec<u8>)
    ensures
        r@ == sha1_of(data@),
        r@.len() == 20,
{
    sha1::Sha1::digest(data).to_vec()
}

/// Relies on the base64 crate's standard-alphabet engine: the RFC 4648
/// base64 text, a function of the input bytes alone.
#[verifier::external_body]
fn base64_encode(data: &[u8]) -> (r: String)
    ensures
        r@ == base64_of(data@),
{
    base64::engine::general_purpose::STANDARD.encode(data)
}

/// The `Sec-WebSocket-Accept` value for a `Sec-WebSocket-Key`: the key with
/// the fixed GUID appended, hashed with SHA-1 and base64-encoded.
pub fn accept_key(sec_websocket_key: &str) -> (r: Result<String, WebsocketHandshakeError>)
    ensures
        r matches Ok(a) && a@ == base64_of(
            sha1_of(sec_websocket_key.spec_bytes() + HANDSHAKE_GUID.spec_bytes()),
        ),
{
    let mut data: Vec<u8> = Vec::new();
    crate::bytes::push_str_bytes(&mut data, sec_websocket_key);
    crate::bytes::push_str_bytes(&mut data, HANDSHAKE_GUID);
    let digest = sha1_digest(data.as_slice());
    Ok(base64_encode(digest.as_slice()))
}

} // verus!
