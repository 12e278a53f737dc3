use vstd::prelude::*;
use crate::decode::{dec_chars_signed, i32_to_string};

verus! {

/// Relies on std's str::chars: the characters of the string, in order.
#[verifier::external_body]
fn str_chars(s: &str) -> (r: Vec<char>)
    ensures
        r@ == s@,
{
    s.chars().collect()
}

/// Relies on std's String FromIterator over chars: the string holding the
/// given characters, in order.
#[verifier::external_body]
fn chars_to_string(cs: &[char]) -> (r: String)
    ensures
        r@ == cs@,
{
    cs.iter().collect()
}

/// A cookie that the server sends to the client.
#[derive(Debug)]
pub struct Cookie {
    /// Name; never empty.
    pub name: String,
    /// Value; may be empty.
    pub value: String,
    /// The `Path` attribute, when set.
    pub path: Option<String>,
    /// The `Domain` attribute, when set.
    pub domain: Option<String>,
    /// The `Expires` attribute, when set.
    pub expires: Option<String>,
    /// The `Max-Age` attribute in seconds, when set.
    pub max_age: Option<i32>,
    /// The `HttpOnly` flag.
    pub http_only: bool,
    /// The `Secure` flag.
    pub secure: bool,
}

/// An attribute part `; <name>=<value>` of a `Set-Cookie` value, or
/// nothing when the attribute is not set.
pub open spec fn spec_cookie_attr(prefix: Seq<char>, v: Option<String>) -> Seq<char> {
    match v {
        Some(s) => prefix + s@,
        None => Seq::empty(),
    }
}

/// The `Max-Age` part of a `Set-Cookie` value.
pub open spec fn spec_cookie_max_age(v: Option<i32>) -> Seq<char> {
    match v {
        Some(n) => "; Max-Age="@ + dec_chars_signed(n as int),
        None => Seq::empty(),
    }
}

/// The whole `Set-Cookie` header value of a cookie.
pub open spec fn spec_cookie_value(c: Cookie) -> Seq<char> {
    c.name@ + "="@ + c.value@ + spec_cookie_attr("; Path="@, c.path)
        + spec_cookie_attr("; Domain="@, c.domain) + spec_cookie_attr("; Expires="@, c.expires)
        + spec_cookie_max_age(c.max_age) + (if c.secure {
        "; Secure"@
    } else {
        Seq::<char>::empty()
    }) + (if c.http_only {
        "; HttpOnly"@
    } else {
        Seq::<char>::empty()
    })
}

/// The `Path` part of a `Set-Cookie` value.
pub fn cookie_path_str(path: &Option<String>) -> (r: String)
    ensures
        r@ == spec_cookie_attr("; Path="@, *path),
{
    match path {
        Some(p) => {
            let mut s = String::new();
            s.append("; Path=");
            s.append(p.as_str());
            s
        }
        None => String::new(),
    }
}

/// The `Domain` part of a `Set-Cookie` value.
pub fn cookie_domain_str(domain: &Option<String>) -> (r: String)
    ensures
        r@ == spec_cookie_attr("; Domain="@, *domain),
{
    match domain {
        Some(d) => {
            let mut s = String::new();
            s.append("; Domain=");
            s.append(d.as_str());
            s
        }
        None => String::new(),
    }
}

/// The `Expires` part of a `Set-Cookie` value.
pub fn cookie_expires_str(expires: &Option<String>) -> (r: String)
    ensures
        r@ == spec_cookie_attr("; Expires="@, *expires),
{
    match expires {
        Some(e) => {
            let mut s = String::new();
            s.append("; Expires=");
            s.append(e.as_str());
            s
        }
        None => String::new(),
    }
}

/// The `Max-Age` part of a `Set-Cookie` value.
pub fn cookie_max_age_str(max_age: &Option<i32>) -> (r: String)
    ensures
        r@ == spec_cookie_max_age(*max_age),
{
    match max_age {
        Some(n) => {
            let mut s = String::new();
            s.append("; Max-Age=");
            let digits = i32_to_string(*n);
            s.append(digits.as_str());
            s
        }
        None => String::new(),
    }
}

impl Cookie {
    /// A cookie prepared to make the browser forget the name: empty value,
    /// a `Max-Age` of zero, `HttpOnly` set.
    pub fn remove(name: &str) -> (r: Cookie)
        ensures
            r.name@ == name@,
            r.value@ == Seq::<char>::empty(),
            r.path is None,
            r.domain is None,
            r.expires is None,
            r.max_age == Some(0i32),
            r.http_only,
            !r.secure,
    {
        Cookie {
            name: String::from_str(name),
            value: String::new(),
            path: None,
            domain: None,
            expires: None,
            max_age: Some(0),
            http_only: true,
            secure: false,
        }
    }

    /// The value for a `Set-Cookie` header:
    /// `name=value[; Path=…][; Domain=…][; Expires=…][; Max-Age=…][; Secure][; HttpOnly]`.
    pub fn header_value(&self) -> (r: String)
        ensures
            r@ == spec_cookie_value(*self),
    {
        let mut s = String::new();
        s.append(self.name.as_str());
        s.append("=");
        s.append(self.value.as_str());
        let path = cookie_path_str(&self.path);
        s.append(path.as_str());
        let domain = cookie_domain_str(&self.domain);
        s.append(domain.as_str());
        let expires = cookie_expires_str(&self.expires);
        s.append(expires.as_str());
        let max_age = cookie_max_age_str(&self.max_age);
        s.append(max_age.as_str());
        if self.secure {
            s.append("; Secure");
        }
        if self.http_only {
            s.append("; HttpOnly");
        }
        proof {
            assert(s@ =~= spec_cookie_value(*self));
        }
        s
    }
}

/// A cookie received from the client.
#[derive(Debug, PartialEq)]
pub struct CookieOfRequst {
    /// Name; never empty.
    pub name: String,
    /// Value; may be empty.
    pub value: String,
}

/// The name and value of parsed request cookies.
pub open spec fn cookie_pairs(cs: Seq<CookieOfRequst>) -> Seq<(Seq<char>, Seq<char>)> {
    cs.map_values(|c: CookieOfRequst| (c.name@, c.value@))
}

/// The tokens of a `Cookie` header value, cut at every `;`, empty tokens
/// kept.
pub open spec fn ck_split_from(h: Seq<char>, start: int, i: int) -> Seq<Seq<char>>
    decreases h.len() - i,
    when 0 <= start && 0 <= i <= h.len()
{
    if i >= h.len() {
        seq![h.subrange(start, h.len() as int)]
    } else if h[i] == ';' {
        seq![h.subrange(start, i)] + ck_split_from(h, i + 1, i + 1)
    } else {
        ck_split_from(h, start, i + 1)
    }
}

/// The position of the first character from `j` that is not a space.
pub open spec fn ck_skip_spaces(tok: Seq<char>, j: int) -> int
    decreases tok.len() - j,
    when 0 <= j <= tok.len()
{
    if j >= tok.len() {
        j
    } else if tok[j] == ' ' {
        ck_skip_spaces(tok, j + 1)
    } else {
        j
    }
}

/// The position of the first `=` from `j`, if any.
pub open spec fn ck_first_eq(tok: Seq<char>, j: int) -> Option<int>
    decreases tok.len() - j,
    when 0 <= j <= tok.len()
{
    if j >= tok.len() {
        None
    } else if tok[j] == '=' {
        Some(j)
    } else {
        ck_first_eq(tok, j + 1)
    }
}

/// The cookie one token yields: leading spaces are stripped; a token of
/// spaces alone yields nothing; a token whose first `=` comes first yields
/// nothing; a token without `=` is all name with an empty value.
pub open spec fn tok_cookie(tok: Seq<char>) -> Option<(Seq<char>, Seq<char>)> {
    let b = ck_skip_spaces(tok, 0);
    if b >= tok.len() {
        None
    } else {
        let t = tok.skip(b);
        match ck_first_eq(t, 0) {
            None => Some((t, Seq::empty())),
            Some(p) => if p > 0 {
                Some((t.take(p), t.skip(p + 1)))
            } else {
                None
            },
        }
    }
}

/// The cookies of a run of tokens, in order.
pub open spec fn cookies_of(toks: Seq<Seq<char>>) -> Seq<(Seq<char>, Seq<char>)>
    decreases toks.len(),
{
    if toks.len() == 0 {
        Seq::empty()
    } else {
        (match tok_cookie(toks[0]) {
            Some(nv) => seq![nv],
            None => Seq::empty(),
        }) + cookies_of(toks.drop_first())
    }
}

/// The cookies of a `Cookie` header value.
pub open spec fn spec_parse_cookie(h: Seq<char>) -> Seq<(Seq<char>, Seq<char>)> {
    cookies_of(ck_split_from(h, 0, 0))
}

/// Reading one more token appends its cookie, if it yields one.
proof fn lemma_cookies_of_push(toks: Seq<Seq<char>>, tok: Seq<char>)
    ensures
        cookies_of(toks.push(tok)) == cookies_of(toks) + (match tok_cookie(tok) {
            Some(nv) => seq![nv],
            None => Seq::<(Seq<char>, Seq<char>)>::empty(),
        }),
    decreases toks.len(),
{
    let tail = match tok_cookie(tok) {
        Some(nv) => seq![nv],
        None => Seq::<(Seq<char>, Seq<char>)>::empty(),
    };
    if toks.len() == 0 {
        assert(toks.push(tok).drop_first() =~= Seq::<Seq<char>>::empty());
        assert(toks.push(tok)[0] == tok);
        assert(cookies_of(Seq::<Seq<char>>::empty()) =~= Seq::<(Seq<char>, Seq<char>)>::empty());
        assert(cookies_of(toks) =~= Seq::<(Seq<char>, Seq<char>)>::empty());
        assert(cookies_of(toks.push(tok)) =~= cookies_of(toks) + tail);
    } else {
        assert(toks.push(tok).drop_first() =~= toks.drop_first().push(tok));
        lemma_cookies_of_push(toks.drop_first(), tok);
        assert(toks.push(tok)[0] == toks[0]);
        assert(cookies_of(toks.push(tok)) =~= cookies_of(toks) + tail);
    }
}

/// The position of the first `=` in the token, if any.
fn find_eq(t: &[char]) -> (r: Option<usize>)
    ensures
        match r {
            Some(p) => p < t@.len() && ck_first_eq(t@, 0) == Some(p as int),
            None => ck_first_eq(t@, 0) is None,
        },
{
    let mut p: usize = 0;
    while p < t.len()
        invariant
            0 <= p <= t@.len(),
            ck_first_eq(t@, 0) == ck_first_eq(t@, p as int),
        decreases t@.len() - p,
    {
        if t[p] == '=' {
            return Some(p);
        }
        p = p + 1;
    }
    None
}

/// The cookie one token of characters yields.
fn tok_to_cookie(tok: &[char]) -> (r: Option<CookieOfRequst>)
    ensures
        match r {
            Some(c) => tok_cookie(tok@) == Some((c.name@, c.value@)),
            None => tok_cookie(tok@) is None,
        },
{
    let mut b: usize = 0;
    while b < tok.len() && tok[b] == ' '
        invariant
            0 <= b <= tok@.len(),
            ck_skip_spaces(tok@, 0) == ck_skip_spaces(tok@, b as int),
        decreases tok@.len() - b,
    {
        b = b + 1;
    }
    if b >= tok.len() {
        return None;
    }
    let len = tok.len();
    let t = vstd::slice::slice_subrange(tok, b, len);
    proof {
        assert(t@ =~= tok@.skip(b as int));
    }
    match find_eq(t) {
        None => {
            let name = chars_to_string(t);
            Some(CookieOfRequst { name, value: String::new() })
        }
        Some(p) => {
            if p == 0 {
                None
            } else {
                let name = chars_to_string(vstd::slice::slice_subrange(t, 0, p));
                let tlen = t.len();
                let value = chars_to_string(vstd::slice::slice_subrange(t, p + 1, tlen));
                proof {
                    assert(name@ =~= t@.take(p as int));
                    assert(value@ =~= t@.skip(p as int + 1));
                }
                Some(CookieOfRequst { name, value })
            }
        }
    }
}

/// Adding one parsed cookie keeps the pairs aligned.
proof fn lemma_cookie_pairs_push(
    old_cs: Seq<CookieOfRequst>,
    new_cs: Seq<CookieOfRequst>,
    nm: Seq<char>,
    vl: Seq<char>,
)
    requires
        new_cs.len() == old_cs.len() + 1,
        forall|t: int| 0 <= t < old_cs.len() ==> new_cs[t] == old_cs[t],
        new_cs.last().name@ == nm,
        new_cs.last().value@ == vl,
    ensures
        cookie_pairs(new_cs) == cookie_pairs(old_cs).push((nm, vl)),
{
    assert forall|t: int| 0 <= t < new_cs.len() implies #[trigger] cookie_pairs(new_cs)[t]
        == cookie_pairs(old_cs).push((nm, vl))[t] by {
        assert(cookie_pairs(new_cs)[t] == (new_cs[t].name@, new_cs[t].value@));
        if t < old_cs.len() {
            assert(cookie_pairs(old_cs)[t] == (old_cs[t].name@, old_cs[t].value@));
        } else {
            assert(new_cs[t] == new_cs.last());
        }
    }
    assert(cookie_pairs(new_cs) =~= cookie_pairs(old_cs).push((nm, vl)));
}

/// Reads one token and appends its cookie, if it yields one.
fn push_token(result: &mut Vec<CookieOfRequst>, tok: &[char])
    ensures
        cookie_pairs(final(result)@) == cookie_pairs(old(result)@) + (match tok_cookie(tok@) {
            Some(nv) => seq![nv],
            None => Seq::<(Seq<char>, Seq<char>)>::empty(),
        }),
{
    match tok_to_cookie(tok) {
        Some(c) => {
            let ghost nm = c.name@;
            let ghost vl = c.value@;
            let ghost old_cs = result@;
            result.push(c);
            proof {
                lemma_cookie_pairs_push(old_cs, result@, nm, vl, );
                assert(cookie_pairs(old_cs).push((nm, vl)) =~= cookie_pairs(old_cs) + seq![
                    (nm, vl)
                ]);
            }
        }
        None => {
            proof {
                assert(cookie_pairs(result@) =~= cookie_pairs(old(result)@) + Seq::<(
                    Seq<char>,
                    Seq<char>,
                )>::empty());
            }
        }
    }
}

/// Splits a `Cookie` header value into its cookies: tokens are cut at
/// every `;`, each is trimmed of leading spaces and split at its first
/// `=`; a token with no `=` yields an empty value, and a token whose `=`
/// comes first yields nothing.
pub fn parse_cookie(cookies_header_value: &str) -> (r: Vec<CookieOfRequst>)
    ensures
        cookie_pairs(r@) == spec_parse_cookie(cookies_header_value@),
{
    let chars = str_chars(cookies_header_value);
    let ghost h = cookies_header_value@;
    let mut result: Vec<CookieOfRequst> = Vec::new();
    let mut token_start: usize = 0;
    let mut i: usize = 0;
    proof {
        assert(cookie_pairs(result@) =~= Seq::<(Seq<char>, Seq<char>)>::empty());
        assert(spec_parse_cookie(h) =~= cookie_pairs(result@) + cookies_of(
            ck_split_from(h, 0, 0),
        ));
    }
    while i < chars.len()
        invariant
            0 <= token_start <= i <= h.len(),
            chars@ == h,
            spec_parse_cookie(h) == cookie_pairs(result@) + cookies_of(
                ck_split_from(h, token_start as int, i as int),
            ),
        decreases h.len() - i,
    {
        if chars[i] == ';' {
            let tok = vstd::slice::slice_subrange(chars.as_slice(), token_start, i);
            proof {
                assert(tok@ =~= h.subrange(token_start as int, i as int));
            }
            let ghost before = result@;
            push_token(&mut result, tok);
            proof {
                let rest = ck_split_from(h, i as int + 1, i as int + 1);
                let split_here = ck_split_from(h, token_start as int, i as int);
                assert(split_here == seq![h.subrange(token_start as int, i as int)] + rest);
                assert(split_here[0] == tok@);
                assert(split_here.drop_first() =~= rest);
                assert(cookies_of(split_here) == (match tok_cookie(tok@) {
                    Some(nv) => seq![nv],
                    None => Seq::<(Seq<char>, Seq<char>)>::empty(),
                }) + cookies_of(rest));
                assert(cookie_pairs(result@) + cookies_of(rest) =~= cookie_pairs(before)
                    + cookies_of(split_here));
            }
            token_start = i + 1;
        } else {
            proof {
                assert(ck_split_from(h, token_start as int, i as int) == ck_split_from(
                    h,
                    token_start as int,
                    i as int + 1,
                ));
            }
        }
        i = i + 1;
    }
    let len = chars.len();
    let tok = vstd::slice::slice_subrange(chars.as_slice(), token_start, len);
    proof {
        assert(tok@ =~= h.subrange(token_start as int, h.len() as int));
    }
    let ghost before = result@;
    push_token(&mut result, tok);
    proof {
        let split_here = ck_split_from(h, token_start as int, h.len() as int);
        assert(split_here == seq![h.subrange(token_start as int, h.len() as int)]);
        assert(split_here[0] == tok@);
        assert(split_here.drop_first() =~= Seq::<Seq<char>>::empty());
        assert(cookies_of(Seq::<Seq<char>>::empty()) =~= Seq::<(Seq<char>, Seq<char>)>::empty());
        assert(cookies_of(split_here) =~= (match tok_cookie(tok@) {
            Some(nv) => seq![nv],
            None => Seq::<(Seq<char>, Seq<char>)>::empty(),
        }));
        assert(cookie_pairs(result@) =~= cookie_pairs(before) + cookies_of(split_here));
    }
    result
}

} // verus!
