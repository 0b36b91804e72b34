use rsgit::html::{attr, page, text, url_path, url_query};
use rsgit::http::{parse, percent_decode, response, response_bytes, url_decode};

#[test]
fn escapes_html_text() {
    assert_eq!(text("<x>&"), "&lt;x&gt;&amp;");
}

#[test]
fn escapes_attributes() {
    assert_eq!(attr("'\"&"), "&#x27;&quot;&amp;");
}

#[test]
fn parses_path_query_and_host() {
    let req =
        parse("GET /repo/foo/tree?path=src%2Fmain.rs HTTP/1.1\r\nHost: localhost:8080\r\n\r\n")
            .unwrap();
    assert_eq!(req.method(), "GET");
    assert_eq!(req.path(), "/repo/foo/tree");
    assert_eq!(req.query("path"), Some("src/main.rs"));
    assert_eq!(req.host(), Some("localhost:8080"));
}

#[test]
fn text_and_attributes_hold_no_markup() {
    let odd = "<a href='x'>\"&amp;\"</a>é\n";
    assert_eq!(
        text(odd),
        "&lt;a href='x'&gt;\"&amp;amp;\"&lt;/a&gt;é\n"
    );
    let quoted = attr(odd);
    assert_eq!(
        quoted,
        "&lt;a href=&#x27;x&#x27;&gt;&quot;&amp;amp;&quot;&lt;/a&gt;é\n"
    );
    assert!(!quoted.contains('<') && !quoted.contains('"') && !quoted.contains('\''));
    assert_ne!(text("&lt;"), text("<"));
    assert_ne!(attr("&quot;"), attr("\""));
    assert_eq!(text(""), "");
}

#[test]
fn urls_are_encoded_byte_by_byte() {
    assert_eq!(url_path("a/b c"), "a/b%20c");
    assert_eq!(url_query("a/b c"), "a%2Fb%20c");
    assert_eq!(url_path("é%+~_-."), "%C3%A9%25%2B~_-.");
    assert_eq!(url_path(""), "");
}

#[test]
fn urls_are_decoded() {
    assert_eq!(url_decode("a%2Fb+c"), "a/b c");
    assert_eq!(url_decode("%c3%A9"), "é");
    assert_eq!(url_decode("%"), "%");
    assert_eq!(url_decode("%4"), "%4");
    assert_eq!(url_decode("%zz%41"), "%zzA");
    assert_eq!(url_decode("%ff"), "\u{fffd}");
    assert_eq!(percent_decode(b"%ff+"), [0xff, b' ']);
}

#[test]
fn decoding_gives_back_what_was_encoded() {
    for given in ["", "a b", "src/main.rs", "100% + é/ü\u{1f600}&=?#\n"] {
        assert_eq!(url_decode(&url_path(given)), given);
        assert_eq!(url_decode(&url_query(given)), given);
    }
}

#[test]
fn pages_share_a_shell() {
    let shown = page("a<b", "<p>x</p>");
    assert!(shown.starts_with("<!doctype html><html><head><meta charset=\"utf-8\">"));
    assert!(shown.contains("<title>a&lt;b</title><style>body{font:16px"));
    assert!(shown.ends_with("</style></head><body><p>x</p></body></html>"));
}

#[test]
fn requests_need_three_words() {
    assert!(parse("").is_none());
    assert!(parse("GET /\r\n").is_none());
    assert!(parse("\r\nGET / HTTP/1.1\r\n").is_none());
    let req = parse("  get\t/x%20y   z extra").unwrap();
    assert_eq!(req.method(), "get");
    assert_eq!(req.path(), "/x y");
    assert_eq!(req.host(), None);
    assert_eq!(req.query("q"), None);
}

#[test]
fn queries_keep_the_last_value() {
    let req = parse("GET /?a=1&&b&a=2&c=x=y&%61+b=+ HTTP/1.1").unwrap();
    assert_eq!(req.query("a"), Some("2"));
    assert_eq!(req.query("b"), Some(""));
    assert_eq!(req.query("c"), Some("x=y"));
    assert_eq!(req.query("a b"), Some(" "));
    assert_eq!(req.query(""), None);
    let twice = parse("GET /?a?b=1 HTTP/1.1").unwrap();
    assert_eq!(twice.query("a?b"), Some("1"));
}

#[test]
fn the_first_host_counts() {
    let req = parse("GET / HTTP/1.1\r\nX: y\r\nhOsT:  a:1 \r\nHost: b\r\n\r\n").unwrap();
    assert_eq!(req.host(), Some("a:1"));
    let none = parse("GET / HTTP/1.1\r\nHost\r\nHosts: b\r\n").unwrap();
    assert_eq!(none.host(), None);
}

#[test]
fn responses_have_headers_and_a_body() {
    let sent = String::from_utf8(response(404, "Not Found", "text/plain", "nö")).unwrap();
    assert_eq!(
        sent,
        "HTTP/1.1 404 Not Found\r\nContent-Type: text/plain\r\nContent-Length: 3\r\nConnection: close\r\nX-Content-Type-Options: nosniff\r\nContent-Security-Policy: default-src 'none'; style-src 'unsafe-inline'; form-action 'self'; base-uri 'none'; frame-ancestors 'none'\r\nReferrer-Policy: no-referrer\r\nX-Frame-Options: DENY\r\n\r\nnö"
    );
    let raw = response_bytes(200, "OK", "a/b", vec![0xff, 0]);
    assert!(raw.starts_with(b"HTTP/1.1 200 OK\r\nContent-Type: a/b\r\nContent-Length: 2\r\n"));
    assert!(raw.ends_with(b"\r\n\r\n\xff\0"));
}

#[test]
fn numbers_are_written_in_decimal() {
    assert_eq!(rsgit::numbers::decimal_of(0), "0");
    assert_eq!(rsgit::numbers::decimal_of(u64::MAX), "18446744073709551615");
    assert_eq!(rsgit::numbers::signed_decimal_of(i64::MIN), "-9223372036854775808");
    for n in [0, 7, -7, i64::MAX, i64::MIN] {
        let written = rsgit::numbers::signed_decimal_of(n);
        assert_eq!(rsgit::numbers::parse_i64(&written), Some(n));
    }
    assert_eq!(rsgit::numbers::parse_i64("+5"), Some(5));
    assert_eq!(rsgit::numbers::parse_i64("--5"), None);
    assert_eq!(rsgit::numbers::parse_i64(""), None);
    assert_eq!(rsgit::numbers::parse_i64("-"), None);
    assert_eq!(rsgit::numbers::parse_i64("9223372036854775808"), None);
    assert_eq!(rsgit::numbers::parse_i64("99999999999999999999999999999999999999999"), None);
}

#[test]
fn the_host_stands_among_the_headers() {
    assert_eq!(parse("GET / HTTP/1.1\r\n\r\nHost: late\r\n").unwrap().host(), None);
    assert_eq!(
        parse("GET / HTTP/1.1\nA: b\nHost: good\n\nHost: late\n").unwrap().host(),
        Some("good")
    );
}
