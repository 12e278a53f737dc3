use vstd::prelude::*;
use vstd::utf8::{valid_utf8, decode_utf8};
use crate::decode::{pct_decode, pct_decode_utf8, spec_pct_decode_utf8};
use crate::bytes::bytes_eq;

verus! {

/// The byte that ends a query token.
pub open spec fn is_query_sep(b: u8) -> bool {
    b == 38 || b == 59  // `&` or `;`
}

/// The non-empty tokens of `q[start..]`, scanning from `i`, cut at every
/// `&` or `;`.
pub open spec fn q_split_from(q: Seq<u8>, start: int, i: int) -> Seq<Seq<u8>>
    decreases q.len() - i,
    when 0 <= start && 0 <= i <= q.len()
{
    if i >= q.len() {
        if start < q.len() {
            seq![q.subrange(start, q.len() as int)]
        } else {
            Seq::empty()
        }
    } else if is_query_sep(q[i]) {
        (if i > start {
            seq![q.subrange(start, i)]
        } else {
            Seq::empty()
        }) + q_split_from(q, i + 1, i + 1)
    } else {
        q_split_from(q, start, i + 1)
    }
}

/// The non-empty tokens of a raw query, cut at every `&` or `;`.
pub open spec fn q_split(q: Seq<u8>) -> Seq<Seq<u8>> {
    q_split_from(q, 0, 0)
}

/// The name and value of one token, scanning for its first `=` from `j`; a
/// leading `=` does not count, and a token without `=` is all name.
pub open spec fn q_nv_from(tok: Seq<u8>, j: int) -> (Seq<u8>, Seq<u8>)
    decreases tok.len() - j,
    when 0 <= j <= tok.len()
{
    if j >= tok.len() {
        (tok, Seq::empty())
    } else if tok[j] == 61 && j > 0 {
        (tok.take(j), tok.skip(j + 1))
    } else {
        q_nv_from(tok, j + 1)
    }
}

/// The name and value of one token, split at its first `=` past the start.
pub open spec fn q_nv(tok: Seq<u8>) -> (Seq<u8>, Seq<u8>) {
    q_nv_from(tok, 0)
}

/// Each token split into its name and value.
pub open spec fn tokens_nv(toks: Seq<Seq<u8>>) -> Seq<(Seq<u8>, Seq<u8>)>
    decreases toks.len(),
{
    if toks.len() == 0 {
        Seq::empty()
    } else {
        seq![q_nv(toks[0])] + tokens_nv(toks.drop_first())
    }
}

/// Splitting one more token appends one more pair.
proof fn lemma_tokens_nv_push(toks: Seq<Seq<u8>>, tok: Seq<u8>)
    ensures
        tokens_nv(toks.push(tok)) == tokens_nv(toks) + seq![q_nv(tok)],
    decreases toks.len(),
{
    if toks.len() == 0 {
        assert(toks.push(tok).drop_first() =~= Seq::<Seq<u8>>::empty());
        assert(toks.push(tok)[0] == tok);
        assert(tokens_nv(Seq::<Seq<u8>>::empty()) =~= Seq::<(Seq<u8>, Seq<u8>)>::empty());
        assert(tokens_nv(toks) =~= Seq::<(Seq<u8>, Seq<u8>)>::empty());
        assert(tokens_nv(toks.push(tok)) =~= tokens_nv(toks) + seq![q_nv(tok)]);
    } else {
        assert(toks.push(tok).drop_first() =~= toks.drop_first().push(tok));
        lemma_tokens_nv_push(toks.drop_first(), tok);
        assert(toks.push(tok)[0] == toks[0]);
        assert(tokens_nv(toks.push(tok)) =~= tokens_nv(toks) + seq![q_nv(tok)]);
    }
}

/// A parsed query: the name and value pairs, in order.
pub open spec fn spec_parse_query(q: Seq<u8>) -> Seq<(Seq<u8>, Seq<u8>)> {
    tokens_nv(q_split(q))
}

/// One query pair, as in `b=2` of `GET /?a=1&b=2 HTTP/1.1`.
#[derive(Debug, Clone, PartialEq)]
pub struct QueryNameValue {
    /// Name; never empty.
    pub name: Vec<u8>,
    /// Value; may be empty.
    pub value: Vec<u8>,
}

/// A parsed query.
#[derive(Debug)]
pub struct Query {
    pub parts: Vec<QueryNameValue>,
}

/// The name and value byte sequences of parsed pairs.
pub open spec fn query_view(parts: Seq<QueryNameValue>) -> Seq<(Seq<u8>, Seq<u8>)> {
    parts.map_values(|p: QueryNameValue| (p.name@, p.value@))
}

/// Splits one token at its first `=` past the start.
fn split_nv(tok: &[u8]) -> (r: (Vec<u8>, Vec<u8>))
    ensures
        (r.0@, r.1@) == q_nv(tok@),
{
    let mut j: usize = 0;
    while j < tok.len()
        invariant
            0 <= j <= tok@.len(),
            q_nv(tok@) == q_nv_from(tok@, j as int),
        decreases tok@.len() - j,
    {
        if tok[j] == 61 && j > 0 {
            let name = vstd::slice::slice_to_vec(vstd::slice::slice_subrange(tok, 0, j));
            let len = tok.len();
            let value = vstd::slice::slice_to_vec(vstd::slice::slice_subrange(tok, j + 1, len));
            proof {
                assert(name@ =~= tok@.take(j as int));
                assert(value@ =~= tok@.skip(j as int + 1));
            }
            return (name, value);
        }
        j = j + 1;
    }
    let name = vstd::slice::slice_to_vec(tok);
    (name, Vec::new())
}

/// Recording one more split token keeps the parsed pairs aligned with the
/// tokens.
proof fn lemma_query_view_push(
    old_parts: Seq<QueryNameValue>,
    old_tokens: Seq<Seq<u8>>,
    pname: Seq<u8>,
    pvalue: Seq<u8>,
    tok: Seq<u8>,
    new_parts: Seq<QueryNameValue>,
    new_tokens: Seq<Seq<u8>>,
)
    requires
        query_view(old_parts) == tokens_nv(old_tokens),
        (pname, pvalue) == q_nv(tok),
        new_parts.len() == old_parts.len() + 1,
        forall|t: int| 0 <= t < old_parts.len() ==> new_parts[t] == old_parts[t],
        new_parts.last().name@ == pname,
        new_parts.last().value@ == pvalue,
        new_tokens == old_tokens.push(tok),
    ensures
        query_view(new_parts) == tokens_nv(new_tokens),
{
    lemma_tokens_nv_push(old_tokens, tok);
    assert forall|t: int| 0 <= t < new_parts.len() implies #[trigger] query_view(new_parts)[t]
        == tokens_nv(new_tokens)[t] by {
        assert(query_view(new_parts)[t] == (new_parts[t].name@, new_parts[t].value@));
        assert(tokens_nv(new_tokens)[t] == (tokens_nv(old_tokens) + seq![q_nv(tok)])[t]);
        if t < old_parts.len() {
            assert(query_view(old_parts)[t] == tokens_nv(old_tokens)[t]);
            assert(query_view(old_parts)[t] == (old_parts[t].name@, old_parts[t].value@));
        } else {
            assert(new_parts[t] == new_parts.last());
            assert((tokens_nv(old_tokens) + seq![q_nv(tok)])[t] == q_nv(tok));
            assert((new_parts[t].name@, new_parts[t].value@) == q_nv(tok));
        }
    }
    assert(query_view(new_parts) =~= tokens_nv(new_tokens));
}

/// Splits a raw query into its name and value pairs: tokens are cut at
/// every `&` or `;`, empty tokens are dropped, and each token is split at
/// its first `=` past the start.
pub fn parse_query(query: &[u8]) -> (r: Query)
    ensures
        query_view(r.parts@) == spec_parse_query(query@),
{
    let mut parts: Vec<QueryNameValue> = Vec::new();
    let ghost q = query@;
    let ghost tokens_done: Seq<Seq<u8>> = Seq::empty();
    let mut tokens_done = Ghost(tokens_done);
    let mut token_start: usize = 0;
    let mut i: usize = 0;
    proof {
        assert(q_split(q) =~= Seq::<Seq<u8>>::empty() + q_split_from(q, 0, 0));
    }
    while i < query.len()
        invariant
            0 <= token_start <= i <= q.len(),
            q == query@,
            q_split(q) == tokens_done@ + q_split_from(q, token_start as int, i as int),
            query_view(parts@) == tokens_nv(tokens_done@),
        decreases q.len() - i,
    {
        let b = query[i];
        if b == 38 || b == 59 {
            if i > token_start {
                let tok = vstd::slice::slice_subrange(query, token_start, i);
                proof {
                    assert(tok@ =~= q.subrange(token_start as int, i as int));
                }
                let nv = split_nv(tok);
                let ghost pname = nv.0@;
                let ghost pvalue = nv.1@;
                let ghost old_parts = parts@;
                let ghost old_tokens = tokens_done@;
                let part = QueryNameValue { name: nv.0, value: nv.1 };
                parts.push(part);
                proof {
                    tokens_done@ = tokens_done@.push(tok@);
                    assert(q_split_from(q, token_start as int, i as int) == seq![
                        q.subrange(token_start as int, i as int)
                    ] + q_split_from(q, i as int + 1, i as int + 1));
                    assert(q_split(q) =~= tokens_done@ + q_split_from(q, i as int + 1, i as int + 1));
                    lemma_query_view_push(old_parts, old_tokens, pname, pvalue, tok@, parts@, tokens_done@);
                }
            } else {
                proof {
                    assert(q_split_from(q, token_start as int, i as int) =~= q_split_from(
                        q,
                        i as int + 1,
                        i as int + 1,
                    ));
                }
            }
            token_start = i + 1;
        } else {
            proof {
                assert(q_split_from(q, token_start as int, i as int) == q_split_from(
                    q,
                    token_start as int,
                    i as int + 1,
                ));
            }
        }
        i = i + 1;
    }
    if token_start < query.len() {
        let len = query.len();
        let tok = vstd::slice::slice_subrange(query, token_start, len);
        proof {
            assert(tok@ =~= q.subrange(token_start as int, q.len() as int));
        }
        let nv = split_nv(tok);
        let ghost pname = nv.0@;
        let ghost pvalue = nv.1@;
        let ghost old_parts = parts@;
        let ghost old_tokens = tokens_done@;
        let part = QueryNameValue { name: nv.0, value: nv.1 };
        parts.push(part);
        proof {
            tokens_done@ = tokens_done@.push(tok@);
            assert(q_split(q) =~= tokens_done@);
            lemma_query_view_push(old_parts, old_tokens, pname, pvalue, tok@, parts@, tokens_done@);
            assert(query_view(parts@) == spec_parse_query(q));
        }
    } else {
        proof {
            assert(q_split_from(q, token_start as int, q.len() as int) =~= Seq::<Seq<u8>>::empty());
            assert(q_split(q) =~= tokens_done@);
            assert(query_view(parts@) =~~= spec_parse_query(q));
        }
    }
    Query { parts }
}

/// The decoded value of the first pair with the given name whose value
/// percent-decodes to UTF-8; pairs whose value does not decode are passed
/// over.
pub open spec fn spec_query_value(parts: Seq<(Seq<u8>, Seq<u8>)>, name: Seq<u8>) -> Option<
    Seq<char>,
>
    decreases parts.len(),
{
    if parts.len() == 0 {
        None
    } else if parts[0].0 == name && spec_pct_decode_utf8(parts[0].1) is Some {
        spec_pct_decode_utf8(parts[0].1)
    } else {
        spec_query_value(parts.drop_first(), name)
    }
}

/// Every byte `+` replaced by a space.
pub open spec fn plus_to_space(s: Seq<u8>) -> Seq<u8> {
    s.map_values(|b: u8| if b == 43 { 32u8 } else { b })
}

impl Query {
    /// The first value under this name, percent-decoded to UTF-8.
    pub fn value(&self, name: &str) -> (r: Option<String>)
        ensures
            match r {
                Some(v) => spec_query_value(
                    query_view(self.parts@),
                    vstd::utf8::encode_utf8(name@),
                ) == Some(v@),
                None => spec_query_value(query_view(self.parts@), vstd::utf8::encode_utf8(name@))
                    is None,
            },
    {
        let mut i: usize = 0;
        proof {
            assert(query_view(self.parts@).skip(0) =~= query_view(self.parts@));
        }
        while i < self.parts.len()
            invariant
                0 <= i <= self.parts@.len(),
                spec_query_value(query_view(self.parts@), vstd::utf8::encode_utf8(name@))
                    == spec_query_value(
                    query_view(self.parts@).skip(i as int),
                    vstd::utf8::encode_utf8(name@),
                ),
            decreases self.parts@.len() - i,
        {
            proof {
                assert(query_view(self.parts@).skip(i as int)[0] == query_view(self.parts@)[i as int]);
                assert(query_view(self.parts@).skip(i as int).drop_first() =~= query_view(
                    self.parts@,
                ).skip(i as int + 1));
            }
            if bytes_eq(self.parts[i].name.as_slice(), name.as_bytes()) {
                match pct_decode_utf8(self.parts[i].value.as_slice()) {
                    Some(decoded) => {
                        return Some(decoded);
                    }
                    None => {},
                }
            }
            i = i + 1;
        }
        None
    }

    /// The value at this position, percent-decoded with `+` read as a
    /// space, as UTF-8.
    pub fn value_at(&self, index: usize) -> (r: Option<String>)
        ensures
            match r {
                Some(v) => index < self.parts@.len() && valid_utf8(
                    plus_to_space(pct_decode(self.parts@[index as int].value@)),
                ) && v@ == decode_utf8(plus_to_space(pct_decode(self.parts@[index as int].value@))),
                None => index >= self.parts@.len() || !valid_utf8(
                    plus_to_space(pct_decode(self.parts@[index as int].value@)),
                ),
            },
    {
        if index >= self.parts.len() {
            return None;
        }
        let mut decoded = crate::decode::pct_decode_bytes(self.parts[index].value.as_slice());
        let mut j: usize = 0;
        while j < decoded.len()
            invariant
                0 <= j <= decoded@.len(),
                decoded@.len() == pct_decode(self.parts@[index as int].value@).len(),
                forall|t: int|
                    0 <= t < j ==> decoded@[t] == plus_to_space(
                        pct_decode(self.parts@[index as int].value@),
                    )[t],
                forall|t: int|
                    j <= t < decoded@.len() ==> decoded@[t] == pct_decode(
                        self.parts@[index as int].value@,
                    )[t],
                index < self.parts@.len(),
            decreases decoded@.len() - j,
        {
            if decoded[j] == 43 {
                decoded[j] = 32;
            }
            j = j + 1;
        }
        proof {
            assert(decoded@ =~= plus_to_space(pct_decode(self.parts@[index as int].value@)));
        }
        crate::decode::utf8_to_string(decoded.as_slice())
    }
}

} // verus!
