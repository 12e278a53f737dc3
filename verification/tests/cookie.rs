use anweb::cookie::{parse_cookie, Cookie, CookieOfRequst};

fn ck(name: &str, value: &str) -> CookieOfRequst {
    CookieOfRequst { name: name.to_string(), value: value.to_string() }
}

#[test]
fn cookie_parse() {
    assert!(parse_cookie("").is_empty());
    assert!(parse_cookie(";").is_empty());
    assert!(parse_cookie(";;").is_empty());
    assert_eq!(parse_cookie("x"), vec![ck("x", "")]);
    assert_eq!(parse_cookie("x=1"), vec![ck("x", "1")]);
    assert_eq!(parse_cookie("x=ab"), vec![ck("x", "ab")]);
    assert_eq!(parse_cookie(";x"), vec![ck("x", "")]);
    assert_eq!(parse_cookie("x;"), vec![ck("x", "")]);
    assert_eq!(parse_cookie(";x;"), vec![ck("x", "")]);
    assert_eq!(parse_cookie(" x"), vec![ck("x", "")]);
    assert_eq!(parse_cookie(" x;"), vec![ck("x", "")]);
    assert_eq!(parse_cookie("x; "), vec![ck("x", "")]);
    assert_eq!(parse_cookie(" x; "), vec![ck("x", "")]);
    assert_eq!(parse_cookie(" x; "), vec![ck("x", "")]);
    assert_eq!(parse_cookie("x="), vec![ck("x", "")]);
    assert!(parse_cookie("=x").is_empty());
    assert!(parse_cookie(" =x").is_empty());
    assert_eq!(parse_cookie(" x=; "), vec![ck("x", "")]);
    assert_eq!(parse_cookie("x  = qq q "), vec![ck("x  ", " qq q ")]);
    assert_eq!(parse_cookie("   x  = qq q "), vec![ck("x  ", " qq q ")]);
    assert_eq!(parse_cookie("ab"), vec![ck("ab", "")]);
    assert_eq!(parse_cookie(" abc"), vec![ck("abc", "")]);
    assert_eq!(parse_cookie(" abc=xyz"), vec![ck("abc", "xyz")]);
    assert_eq!(
        parse_cookie(" abc=xyz;xyz=123"),
        vec![ck("abc", "xyz"), ck("xyz", "123")]
    );
    assert_eq!(
        parse_cookie(" abc=xyz; xyz=123"),
        vec![ck("abc", "xyz"), ck("xyz", "123")]
    );

    assert!(parse_cookie("=x").is_empty());
}

#[test]
fn set_cookie_value() {
    let c = Cookie {
        name: "key".to_string(),
        value: "val".to_string(),
        path: Some("/p".to_string()),
        domain: Some("example".to_string()),
        expires: None,
        max_age: Some(-5),
        http_only: true,
        secure: true,
    };
    assert_eq!(
        c.header_value(),
        "key=val; Path=/p; Domain=example; Max-Age=-5; Secure; HttpOnly"
    );

    let r = Cookie::remove("gone");
    assert_eq!(r.header_value(), "gone=; Max-Age=0; HttpOnly");
}

#[test]
fn request_cookies() {
    let mut parser = anweb::request_parser::Parser::new();
    let settings = anweb::request_parser::ParseHttpRequestSettings::default();
    let (request, _) = parser
        .parse_yet(b"GET / HTTP/1.1\r\nCookie: a=1; b=2\r\n\r\n", &settings)
        .unwrap();
    assert_eq!(request.cookies(), vec![ck("a", "1"), ck("b", "2")]);
}
