use http_head::http_entity::{HttpMethod, HttpVsn};
use http_head::lexer::{DelimiterKind, TCharKind, TokenKind};
use http_head::parser::{Expectation, ParseErr, Parser, RequestLine};

fn run(text: &str) -> TokenKind {
    TokenKind::Token(text.to_string())
}

fn line(method: HttpMethod, path: &str) -> RequestLine {
    RequestLine(method, path.to_string(), HttpVsn::HTTP1_1)
}

#[test]
fn fofoo() {
    let src = "GET /banana".as_bytes();
    let mut parser = Parser::new(src);

    let tk = parser.method();
    println!("tk {:?}", tk);

    parser.expect(TokenKind::Space).unwrap();

    let path = parser.path(&mut String::new());
    println!("path {:?}", path);
}

#[test]
fn method_then_space_then_path() {
    let mut parser = Parser::new(b"GET /banana");
    assert_eq!(parser.method(), HttpMethod::GET);
    assert_eq!(parser.expect(TokenKind::Space), Ok(TokenKind::Space));
    assert_eq!(parser.path(&mut String::new()), Ok("/banana".to_string()));
    assert_eq!(parser.curr, TokenKind::Eof);
    assert_eq!(parser.next, TokenKind::Eof);
}

#[test]
fn new_reads_two_tokens() {
    let parser = Parser::new(b"GET /");
    assert_eq!(parser.curr, run("GET"));
    assert_eq!(parser.next, TokenKind::Space);
    let parser = Parser::new(b"");
    assert_eq!(parser.curr, TokenKind::Eof);
    assert_eq!(parser.next, TokenKind::Eof);
    let parser = Parser::new(b"/");
    assert_eq!(parser.curr, TokenKind::Delimiter(DelimiterKind::Slash));
    assert_eq!(parser.next, TokenKind::Eof);
}

#[test]
fn walk_rotates_the_window() {
    let mut parser = Parser::new(b"a b");
    assert_eq!(parser.walk(), TokenKind::Char(TCharKind::Alpha('a')));
    assert_eq!(parser.curr, TokenKind::Space);
    assert_eq!(parser.next, TokenKind::Char(TCharKind::Alpha('b')));
    assert_eq!(parser.walk(), TokenKind::Space);
    assert_eq!(parser.walk(), TokenKind::Char(TCharKind::Alpha('b')));
    assert_eq!(parser.walk(), TokenKind::Eof);
    assert_eq!(parser.walk(), TokenKind::Eof);
    assert_eq!(parser.walk(), TokenKind::Eof);
}

#[test]
fn expect_token_wants_a_run() {
    let mut parser = Parser::new(b"Host: x");
    assert_eq!(parser.expect_token(), Ok("Host".to_string()));
    assert_eq!(parser.curr, TokenKind::Delimiter(DelimiterKind::Colon));
    assert_eq!(
        parser.expect_token(),
        Err(ParseErr {
            expected: Expectation::Run,
            found: TokenKind::Delimiter(DelimiterKind::Colon),
        })
    );
    assert_eq!(parser.curr, TokenKind::Delimiter(DelimiterKind::Colon));
    assert_eq!(parser.next, TokenKind::Space);
}

#[test]
fn expect_token_refuses_a_lone_letter() {
    let mut parser = Parser::new(b"x y");
    assert_eq!(
        parser.expect_token(),
        Err(ParseErr {
            expected: Expectation::Run,
            found: TokenKind::Char(TCharKind::Alpha('x')),
        })
    );
}

#[test]
fn expect_compares_the_payload_too() {
    let mut parser = Parser::new(b"21");
    assert_eq!(
        parser.expect(TokenKind::Char(TCharKind::Digit(1))),
        Err(ParseErr {
            expected: Expectation::Exactly(TokenKind::Char(TCharKind::Digit(1))),
            found: TokenKind::Char(TCharKind::Digit(2)),
        })
    );
    assert_eq!(parser.curr, TokenKind::Char(TCharKind::Digit(2)));
    assert_eq!(
        parser.expect(TokenKind::Char(TCharKind::Digit(2))),
        Ok(TokenKind::Char(TCharKind::Digit(2)))
    );
    assert_eq!(
        parser.expect(TokenKind::Char(TCharKind::Digit(1))),
        Ok(TokenKind::Char(TCharKind::Digit(1)))
    );
    assert_eq!(parser.expect(TokenKind::Eof), Ok(TokenKind::Eof));
    assert_eq!(parser.expect(TokenKind::Eof), Ok(TokenKind::Eof));
}

#[test]
fn expect_compares_the_text_of_a_run() {
    let mut parser = Parser::new(b"GET ");
    assert_eq!(
        parser.expect(run("POST")),
        Err(ParseErr { expected: Expectation::Exactly(run("POST")), found: run("GET") })
    );
    assert_eq!(parser.expect(run("GET")), Ok(run("GET")));
}

#[test]
fn curr_is_does_not_advance() {
    let parser = Parser::new(b" a");
    assert!(parser.curr_is(TokenKind::Space));
    assert!(parser.curr_is(TokenKind::Space));
    assert!(!parser.curr_is(TokenKind::CRLF));
    assert!(!parser.curr_is(TokenKind::Char(TCharKind::Alpha('a'))));
    assert_eq!(parser.curr, TokenKind::Space);
}

#[test]
fn opt_space_takes_one_space_at_most() {
    let mut parser = Parser::new(b"  x");
    parser.opt_space();
    assert_eq!(parser.curr, TokenKind::Space);
    assert_eq!(parser.next, TokenKind::Char(TCharKind::Alpha('x')));
    let mut parser = Parser::new(b"x ");
    parser.opt_space();
    assert_eq!(parser.curr, TokenKind::Char(TCharKind::Alpha('x')));
    assert_eq!(parser.next, TokenKind::Space);
}

#[test]
fn method_names() {
    assert_eq!(Parser::new(b"GET /").method(), HttpMethod::GET);
    assert_eq!(Parser::new(b"POST /").method(), HttpMethod::POST);
    assert_eq!(Parser::new(b"FETCH /").method(), HttpMethod::BAD);
    assert_eq!(Parser::new(b"get /").method(), HttpMethod::BAD);
    assert_eq!(Parser::new(b"GETS /").method(), HttpMethod::BAD);
    assert_eq!(Parser::new(b"").method(), HttpMethod::BAD);
}

#[test]
fn method_that_is_no_run_leaves_the_window() {
    let mut parser = Parser::new(b"/ x");
    assert_eq!(parser.method(), HttpMethod::BAD);
    assert_eq!(parser.curr, TokenKind::Delimiter(DelimiterKind::Slash));
    let mut parser = Parser::new(b"X /");
    assert_eq!(parser.method(), HttpMethod::BAD);
    assert_eq!(parser.curr, TokenKind::Char(TCharKind::Alpha('X')));
    let mut parser = Parser::new(b"PUT /");
    assert_eq!(parser.method(), HttpMethod::BAD);
    assert_eq!(parser.curr, TokenKind::Space);
}

#[test]
fn method_from_name() {
    assert_eq!(HttpMethod::from_name(&"GET".to_string()), HttpMethod::GET);
    assert_eq!(HttpMethod::from_name(&"POST".to_string()), HttpMethod::POST);
    assert_eq!(HttpMethod::from_name(&"Get".to_string()), HttpMethod::BAD);
    assert_eq!(HttpMethod::from_name(&"".to_string()), HttpMethod::BAD);
    assert_eq!(HttpMethod::from_name(&"DELETE".to_string()), HttpMethod::BAD);
}

#[test]
fn path_ends_at_space_line_end_or_end_of_input() {
    let mut parser = Parser::new(b"/a/b rest");
    assert_eq!(parser.path(&mut String::new()), Ok("/a/b".to_string()));
    assert_eq!(parser.curr, run("rest"));
    let mut parser = Parser::new(b"/a/b\r\nrest");
    assert_eq!(parser.path(&mut String::new()), Ok("/a/b".to_string()));
    assert_eq!(parser.curr, run("rest"));
    let mut parser = Parser::new(b"/a/b");
    assert_eq!(parser.path(&mut String::new()), Ok("/a/b".to_string()));
    let mut parser = Parser::new(b"/a\0b");
    assert_eq!(parser.path(&mut String::new()), Ok("/a".to_string()));
    let mut parser = Parser::new(b"");
    assert_eq!(parser.path(&mut String::new()), Ok("".to_string()));
}

#[test]
fn path_adds_to_the_text_given() {
    let mut text = "pre".to_string();
    let mut parser = Parser::new(b"/x1.y-z:8 ");
    assert_eq!(parser.path(&mut text), Ok("pre/x1.y-z:8".to_string()));
    assert_eq!(text, "pre/x1.y-z:8");
}

#[test]
fn path_keeps_lone_carriage_return_and_line_feed() {
    let mut parser = Parser::new(b"/a\rb\nc ");
    assert_eq!(parser.path(&mut String::new()), Ok("/a\rb\nc".to_string()));
}

#[test]
fn path_fails_on_a_quote() {
    let mut text = String::new();
    let mut parser = Parser::new(b"/a\"b c");
    assert_eq!(
        parser.path(&mut text),
        Err(ParseErr { expected: Expectation::Content, found: TokenKind::DQuote })
    );
    assert_eq!(text, "/a");
    assert_eq!(parser.curr, TokenKind::Char(TCharKind::Alpha('b')));
}

#[test]
fn path_fails_on_a_bad_byte() {
    let mut text = String::new();
    let mut parser = Parser::new(b"/items?id=1 ");
    assert_eq!(
        parser.path(&mut text),
        Err(ParseErr { expected: Expectation::Content, found: TokenKind::Bad })
    );
    assert_eq!(text, "/items");
    assert_eq!(parser.curr, run("id"));
}

#[test]
fn version_is_http_1_1() {
    let mut parser = Parser::new(b"HTTP/1.1\r\n");
    assert_eq!(parser.http_1_1(), Ok(HttpVsn::HTTP1_1));
    assert_eq!(parser.curr, TokenKind::CRLF);
}

#[test]
fn version_wants_the_name_in_capitals() {
    let mut parser = Parser::new(b"http/1.1\r\n");
    assert_eq!(
        parser.http_1_1(),
        Err(ParseErr { expected: Expectation::ProtocolName, found: run("http") })
    );
    assert_eq!(parser.curr, TokenKind::Delimiter(DelimiterKind::Slash));
    let mut parser = Parser::new(b"HTTPS/1.1\r\n");
    assert_eq!(
        parser.http_1_1(),
        Err(ParseErr { expected: Expectation::ProtocolName, found: run("HTTPS") })
    );
    let mut parser = Parser::new(b"/1.1\r\n");
    assert_eq!(
        parser.http_1_1(),
        Err(ParseErr {
            expected: Expectation::Run,
            found: TokenKind::Delimiter(DelimiterKind::Slash),
        })
    );
}

#[test]
fn version_wants_slash_digits_and_dot() {
    let mut parser = Parser::new(b"HTTP 1.1");
    assert_eq!(
        parser.http_1_1(),
        Err(ParseErr {
            expected: Expectation::Exactly(TokenKind::Delimiter(DelimiterKind::Slash)),
            found: TokenKind::Space,
        })
    );
    let mut parser = Parser::new(b"HTTP/2.0");
    assert_eq!(
        parser.http_1_1(),
        Err(ParseErr {
            expected: Expectation::Exactly(TokenKind::Char(TCharKind::Digit(1))),
            found: TokenKind::Char(TCharKind::Digit(2)),
        })
    );
    let mut parser = Parser::new(b"HTTP/1:1");
    assert_eq!(
        parser.http_1_1(),
        Err(ParseErr {
            expected: Expectation::Exactly(TokenKind::Char(TCharKind::Dot)),
            found: TokenKind::Delimiter(DelimiterKind::Colon),
        })
    );
    let mut parser = Parser::new(b"HTTP/1.0");
    assert_eq!(
        parser.http_1_1(),
        Err(ParseErr {
            expected: Expectation::Exactly(TokenKind::Char(TCharKind::Digit(1))),
            found: TokenKind::Char(TCharKind::Digit(0)),
        })
    );
    assert_eq!(parser.curr, TokenKind::Char(TCharKind::Digit(0)));
    let mut parser = Parser::new(b"HTTP/1.");
    assert_eq!(
        parser.http_1_1(),
        Err(ParseErr {
            expected: Expectation::Exactly(TokenKind::Char(TCharKind::Digit(1))),
            found: TokenKind::Eof,
        })
    );
}

#[test]
fn request_line_get_items() {
    let mut parser = Parser::new(b"GET /items HTTP/1.1\r\n");
    assert_eq!(parser.request_line(), Ok(line(HttpMethod::GET, "/items")));
    assert_eq!(parser.curr, TokenKind::Eof);
}

#[test]
fn request_line_post_root() {
    let mut parser = Parser::new(b"POST / HTTP/1.1\r\n");
    assert_eq!(parser.request_line(), Ok(line(HttpMethod::POST, "/")));
}

#[test]
fn request_line_unknown_method_is_recovered() {
    let mut parser = Parser::new(b"FETCH / HTTP/1.1\r\n");
    assert_eq!(parser.request_line(), Ok(line(HttpMethod::BAD, "/")));
}

#[test]
fn request_line_other_version_fails_at_first_digit() {
    let mut parser = Parser::new(b"GET /x HTTP/2.0\r\n");
    assert_eq!(
        parser.request_line(),
        Err(ParseErr {
            expected: Expectation::Exactly(TokenKind::Char(TCharKind::Digit(1))),
            found: TokenKind::Char(TCharKind::Digit(2)),
        })
    );
    assert_eq!(parser.curr, TokenKind::Char(TCharKind::Digit(2)));
}

#[test]
fn request_line_round_trips_plain_paths() {
    for method in ["GET", "POST"] {
        for path in ["", "/", "/items", "/a/b/c", "/a.b-c_d~e", "/1/22/333", "/x", "/a:8080/b", "*", "/a\rb", "/a\nb", "/%7Euser/!$&'*+`^|#"] {
            let src = format!("{} {} HTTP/1.1\r\n", method, path);
            let mut parser = Parser::new(src.as_bytes());
            let expected = if method == "GET" { HttpMethod::GET } else { HttpMethod::POST };
            assert_eq!(parser.request_line(), Ok(line(expected, path)));
            assert_eq!(parser.curr, TokenKind::Eof);
            assert_eq!(parser.next, TokenKind::Eof);
        }
    }
}

#[test]
fn request_line_wants_one_space_after_the_method() {
    let mut parser = Parser::new(b"GET/ HTTP/1.1\r\n");
    assert_eq!(
        parser.request_line(),
        Err(ParseErr {
            expected: Expectation::Exactly(TokenKind::Space),
            found: TokenKind::Delimiter(DelimiterKind::Slash),
        })
    );
    let mut parser = Parser::new(b"/ HTTP/1.1\r\n");
    assert_eq!(
        parser.request_line(),
        Err(ParseErr {
            expected: Expectation::Exactly(TokenKind::Space),
            found: TokenKind::Delimiter(DelimiterKind::Slash),
        })
    );
}

#[test]
fn request_line_second_space_ends_the_path_at_once() {
    let mut parser = Parser::new(b"GET  /x HTTP/1.1\r\n");
    assert_eq!(parser.method(), HttpMethod::GET);
    assert_eq!(parser.expect(TokenKind::Space), Ok(TokenKind::Space));
    assert_eq!(parser.curr, TokenKind::Space);
    assert_eq!(parser.path(&mut String::new()), Ok("".to_string()));
    assert_eq!(parser.curr, TokenKind::Delimiter(DelimiterKind::Slash));

    let mut parser = Parser::new(b"GET  /x HTTP/1.1\r\n");
    assert_eq!(
        parser.request_line(),
        Err(ParseErr {
            expected: Expectation::Run,
            found: TokenKind::Delimiter(DelimiterKind::Slash),
        })
    );
}

#[test]
fn request_line_wants_a_line_end() {
    let mut parser = Parser::new(b"GET / HTTP/1.1");
    assert_eq!(
        parser.request_line(),
        Err(ParseErr { expected: Expectation::Exactly(TokenKind::CRLF), found: TokenKind::Eof })
    );
    let mut parser = Parser::new(b"GET / HTTP/1.1\n");
    assert_eq!(
        parser.request_line(),
        Err(ParseErr { expected: Expectation::Exactly(TokenKind::CRLF), found: TokenKind::LF })
    );
}

#[test]
fn request_line_fails_on_quote_and_bad_byte() {
    let mut parser = Parser::new(b"GET /\"a\" HTTP/1.1\r\n");
    assert_eq!(
        parser.request_line(),
        Err(ParseErr { expected: Expectation::Content, found: TokenKind::DQuote })
    );
    let mut parser = Parser::new(b"GET /a?b HTTP/1.1\r\n");
    assert_eq!(
        parser.request_line(),
        Err(ParseErr { expected: Expectation::Content, found: TokenKind::Bad })
    );
}

#[test]
fn header_value_reads_up_to_the_line_end() {
    let mut parser = Parser::new(b"text/html; q=1\r\n");
    assert_eq!(
        parser.header_value(),
        Err(ParseErr { expected: Expectation::Content, found: TokenKind::Bad })
    );
    let mut parser = Parser::new(b"text/html \"x\" 1.5\r\nNext");
    assert_eq!(parser.header_value(), Ok("text/html \"x\" 1.5".to_string()));
    assert_eq!(parser.curr, TokenKind::CRLF);
    assert_eq!(parser.next, run("Next"));
    let mut parser = Parser::new(b"\r\n");
    assert_eq!(parser.header_value(), Ok("".to_string()));
    assert_eq!(parser.curr, TokenKind::CRLF);
}

#[test]
fn header_value_fails_at_end_of_input() {
    let mut parser = Parser::new(b"example.com");
    assert_eq!(
        parser.header_value(),
        Err(ParseErr { expected: Expectation::Content, found: TokenKind::Eof })
    );
}

#[test]
fn headers_one_field() {
    let mut parser = Parser::new(b"GET / HTTP/1.1\r\nHost: example.com\r\n\r\n");
    let entity = parser.headers().unwrap();
    assert_eq!(entity.method, HttpMethod::GET);
    assert_eq!(entity.path, "/");
    assert_eq!(entity.http_version, HttpVsn::HTTP1_1);
    assert_eq!(entity.headers.len(), 1);
    assert_eq!(entity.headers.get("Host"), Some(&"example.com".to_string()));
    assert_eq!(entity.headers.get("host"), None);
    assert_eq!(parser.curr, TokenKind::Eof);
    assert_eq!(parser.next, TokenKind::Eof);
}

#[test]
fn headers_blank_line_is_taken_once() {
    let mut parser = Parser::new(b"GET / HTTP/1.1\r\nHost: example.com\r\n\r\nbody here");
    let entity = parser.headers().unwrap();
    assert_eq!(entity.headers.len(), 1);
    assert_eq!(parser.curr, run("body"));
    assert_eq!(parser.next, TokenKind::Space);

    let mut parser = Parser::new(b"GET / HTTP/1.1\r\n\r\n\r\n");
    let entity = parser.headers().unwrap();
    assert_eq!(entity.headers.len(), 0);
    assert_eq!(parser.curr, TokenKind::CRLF);
    assert_eq!(parser.next, TokenKind::Eof);
}

#[test]
fn headers_no_field() {
    let mut parser = Parser::new(b"POST /submit HTTP/1.1\r\n\r\n");
    let entity = parser.headers().unwrap();
    assert_eq!(entity.method, HttpMethod::POST);
    assert_eq!(entity.path, "/submit");
    assert_eq!(entity.headers.len(), 0);
    assert!(entity.headers.is_empty());
    assert_eq!(parser.curr, TokenKind::Eof);
}

#[test]
fn headers_several_fields() {
    let mut parser = Parser::new(
        b"GET /a HTTP/1.1\r\nHost: example.com\r\nAccept: text/html\r\nContent-Length:42\r\n\r\n",
    );
    let entity = parser.headers().unwrap();
    assert_eq!(entity.headers.len(), 3);
    assert_eq!(entity.headers.get("Host"), Some(&"example.com".to_string()));
    assert_eq!(entity.headers.get("Accept"), Some(&"text/html".to_string()));
    assert_eq!(entity.headers.get("Content-Length"), Some(&"42".to_string()));
    assert_eq!(parser.curr, TokenKind::Eof);
}

#[test]
fn headers_last_value_of_a_name_wins() {
    let mut parser =
        Parser::new(b"GET / HTTP/1.1\r\nHost: first\r\nOther: x-y\r\nHost: second\r\n\r\n");
    let entity = parser.headers().unwrap();
    assert_eq!(entity.headers.len(), 2);
    assert_eq!(entity.headers.get("Host"), Some(&"second".to_string()));
    assert_eq!(entity.headers.get("Other"), Some(&"x-y".to_string()));
}

#[test]
fn headers_second_space_belongs_to_the_value() {
    let mut parser = Parser::new(b"GET / HTTP/1.1\r\nHost:  example.com\r\n\r\n");
    let entity = parser.headers().unwrap();
    assert_eq!(entity.headers.get("Host"), Some(&" example.com".to_string()));
    let mut parser = Parser::new(b"GET / HTTP/1.1\r\nHost:example.com \r\n\r\n");
    let entity = parser.headers().unwrap();
    assert_eq!(entity.headers.get("Host"), Some(&"example.com ".to_string()));
}

#[test]
fn headers_empty_value() {
    let mut parser = Parser::new(b"GET / HTTP/1.1\r\nEmpty:\r\n\r\n");
    let entity = parser.headers().unwrap();
    assert_eq!(entity.headers.len(), 1);
    assert_eq!(entity.headers.get("Empty"), Some(&"".to_string()));
}

#[test]
fn headers_unknown_method_is_recovered() {
    let mut parser = Parser::new(b"FETCH / HTTP/1.1\r\nHost: example.com\r\n\r\n");
    let entity = parser.headers().unwrap();
    assert_eq!(entity.method, HttpMethod::BAD);
    assert_eq!(entity.path, "/");
    assert_eq!(entity.headers.get("Host"), Some(&"example.com".to_string()));
}

#[test]
fn headers_fail_without_the_blank_line() {
    let mut parser = Parser::new(b"GET / HTTP/1.1\r\n");
    assert_eq!(
        parser.headers().err(),
        Some(ParseErr { expected: Expectation::Run, found: TokenKind::Eof })
    );
    let mut parser = Parser::new(b"GET / HTTP/1.1\r\nHost: example.com\r\n");
    assert_eq!(
        parser.headers().err(),
        Some(ParseErr { expected: Expectation::Run, found: TokenKind::Eof })
    );
}

#[test]
fn headers_fail_on_a_broken_request_line() {
    let mut parser = Parser::new(b"GET /x HTTP/2.0\r\nHost: example.com\r\n\r\n");
    assert_eq!(
        parser.headers().err(),
        Some(ParseErr {
            expected: Expectation::Exactly(TokenKind::Char(TCharKind::Digit(1))),
            found: TokenKind::Char(TCharKind::Digit(2)),
        })
    );
}

#[test]
fn headers_fail_on_a_broken_field() {
    let mut parser = Parser::new(b"GET / HTTP/1.1\r\nHost example.com\r\n\r\n");
    assert_eq!(
        parser.headers().err(),
        Some(ParseErr {
            expected: Expectation::Exactly(TokenKind::Delimiter(DelimiterKind::Colon)),
            found: TokenKind::Space,
        })
    );
    let mut parser = Parser::new(b"GET / HTTP/1.1\r\n: example.com\r\n\r\n");
    assert_eq!(
        parser.headers().err(),
        Some(ParseErr {
            expected: Expectation::Run,
            found: TokenKind::Delimiter(DelimiterKind::Colon),
        })
    );
    let mut parser = Parser::new(b"GET / HTTP/1.1\r\nX: 1\r\n\r\n");
    assert_eq!(
        parser.headers().err(),
        Some(ParseErr {
            expected: Expectation::Run,
            found: TokenKind::Char(TCharKind::Alpha('X')),
        })
    );
}

#[test]
fn headers_fail_on_a_bad_byte_in_a_value() {
    let mut parser = Parser::new(b"GET / HTTP/1.1\r\nAccept: a;b\r\n\r\n");
    assert_eq!(
        parser.headers().err(),
        Some(ParseErr { expected: Expectation::Content, found: TokenKind::Bad })
    );
    let mut parser = Parser::new(b"GET / HTTP/1.1\r\nHost: example.com");
    assert_eq!(
        parser.headers().err(),
        Some(ParseErr { expected: Expectation::Content, found: TokenKind::Eof })
    );
}

#[test]
fn head_round_trips_plain_fields() {
    let fields = [
        ("Host", "example.com"),
        ("User-Agent", "curl/8.5.0"),
        ("Accept", "*/*"),
        ("Quoted", "\"a b\" 'c'"),
        ("Spaced", " two  spaces "),
        ("Empty", ""),
        ("Host", "again.example.com:8080"),
    ];
    let mut src = String::from("POST /a/b HTTP/1.1\r\n");
    for (name, value) in fields {
        src.push_str(&format!("{}: {}\r\n", name, value));
    }
    src.push_str("\r\n");
    let mut parser = Parser::new(src.as_bytes());
    let entity = parser.headers().unwrap();
    assert_eq!(entity.method, HttpMethod::POST);
    assert_eq!(entity.path, "/a/b");
    assert_eq!(entity.http_version, HttpVsn::HTTP1_1);
    assert_eq!(entity.headers.len(), 6);
    assert_eq!(entity.headers.get("Host"), Some(&"again.example.com:8080".to_string()));
    assert_eq!(entity.headers.get("User-Agent"), Some(&"curl/8.5.0".to_string()));
    assert_eq!(entity.headers.get("Accept"), Some(&"*/*".to_string()));
    assert_eq!(entity.headers.get("Quoted"), Some(&"\"a b\" 'c'".to_string()));
    assert_eq!(entity.headers.get("Spaced"), Some(&" two  spaces ".to_string()));
    assert_eq!(entity.headers.get("Empty"), Some(&"".to_string()));
    assert_eq!(parser.curr, TokenKind::Eof);
    assert_eq!(parser.next, TokenKind::Eof);
}
