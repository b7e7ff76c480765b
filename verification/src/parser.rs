//! The grammar of a request head, read through a window of two tokens.

use crate::http_entity::{
    method_of, Headers, HttpEntity, HttpEntityView, HttpMethod, HttpVsn,
};
use crate::lexer::{
    lemma_lex_step_advances, lex_step, token_text, DelimiterKind, Lexer, TCharKind, Token,
    TokenKind,
};
use vstd::prelude::*;
use vstd::string::StringExecFns;

verus! {

/// What a grammar rule was looking for when it failed.
#[derive(Debug, PartialEq, Eq)]
pub enum Expectation {
    /// Any run token.
    Run,
    /// This token, payload included.
    Exactly(TokenKind),
    /// The run `HTTP`.
    ProtocolName,
    /// A token that stands for text.
    Content,
}

/// The mathematical value of an [`Expectation`].
pub enum Wanted {
    Run,
    Exactly(Token),
    ProtocolName,
    Content,
}

impl View for Expectation {
    type V = Wanted;

    open spec fn view(&self) -> Wanted {
        match self {
            Expectation::Run => Wanted::Run,
            Expectation::Exactly(t) => Wanted::Exactly(t@),
            Expectation::ProtocolName => Wanted::ProtocolName,
            Expectation::Content => Wanted::Content,
        }
    }
}

/// A structural error: what the grammar expected and the token that stood
/// there instead.
#[derive(Debug, PartialEq, Eq)]
pub struct ParseErr {
    pub expected: Expectation,
    pub found: TokenKind,
}

/// The mathematical value of a [`ParseErr`].
pub struct Mismatch {
    pub expected: Wanted,
    pub found: Token,
}

impl View for ParseErr {
    type V = Mismatch;

    open spec fn view(&self) -> Mismatch {
        Mismatch { expected: self.expected@, found: self.found@ }
    }
}

/// The state of a parser: the buffer, the position from which the next
/// token will be read, and the two tokens already read.
pub struct ParserView {
    pub bytes: Seq<u8>,
    pub pos: int,
    pub curr: Token,
    pub next: Token,
}

/// The state in which the current token is the one that starts at `at`:
/// the next token is the one after it, and the cursor stands after both.
pub open spec fn window(bytes: Seq<u8>, at: int) -> ParserView {
    let first = lex_step(bytes, at);
    let second = lex_step(bytes, first.1);
    ParserView { bytes, pos: second.1, curr: first.0, next: second.0 }
}

/// The state after one advance: the next token has become the current
/// one, and a new next token has been read.
pub open spec fn walked(ps: ParserView) -> ParserView {
    let step = lex_step(ps.bytes, ps.pos);
    ParserView { bytes: ps.bytes, pos: step.1, curr: ps.next, next: step.0 }
}

/// Expecting a run: its text and the state after an advance, or an error
/// and the state unchanged.
pub open spec fn expect_run(ps: ParserView) -> (Result<Seq<char>, Mismatch>, ParserView) {
    match ps.curr {
        Token::Run(text) => (Ok(text), walked(ps)),
        _ => (Err(Mismatch { expected: Wanted::Run, found: ps.curr }), ps),
    }
}

/// Expecting one token: that token and the state after an advance, or an
/// error and the state unchanged.
pub open spec fn expect_exactly(ps: ParserView, kind: Token) -> (Result<Token, Mismatch>, ParserView) {
    if ps.curr == kind {
        (Ok(ps.curr), walked(ps))
    } else {
        (Err(Mismatch { expected: Wanted::Exactly(kind), found: ps.curr }), ps)
    }
}

/// Skipping one space, if the current token is one.
pub open spec fn skip_space(ps: ParserView) -> ParserView {
    if ps.curr == Token::Space {
        walked(ps)
    } else {
        ps
    }
}

/// The view of a result: the view of what it holds, on either side.
pub open spec fn outcome<T: View, E: View>(r: Result<T, E>) -> Result<T::V, E::V> {
    match r {
        Ok(t) => Ok(t@),
        Err(e) => Err(e@),
    }
}

/// What expecting a token gives: the token, or the error.
pub type ParseResult = Result<TokenKind, ParseErr>;

/// A window of two tokens over a tokenizer.
pub struct Parser<'a> {
    pub lexer: Lexer<'a>,
    pub curr: TokenKind,
    pub next: TokenKind,
}

impl<'a> View for Parser<'a> {
    type V = ParserView;

    open spec fn view(&self) -> ParserView {
        ParserView {
            bytes: self.lexer@.bytes,
            pos: self.lexer@.pos as int,
            curr: self.curr@,
            next: self.next@,
        }
    }
}

impl<'a> Parser<'a> {
    /// A parser over `bytes`, with the first two tokens read.
    pub fn new(bytes: &'a [u8]) -> (parser: Self)
        ensures
            parser@ == window(bytes@, 0),
    {
        let mut lexer = Lexer::new(bytes);
        let curr = lexer.lex();
        let next = lexer.lex();
        Self { lexer, curr, next }
    }

    /// Advances by one token and hands out the token that was current.
    pub fn walk(&mut self) -> (tk: TokenKind)
        ensures
            tk@ == old(self)@.curr,
            final(self)@ == walked(old(self)@),
    {
        let mut a_next = self.lexer.lex();
        std::mem::swap(&mut self.next, &mut self.curr);
        std::mem::swap(&mut self.next, &mut a_next);
        a_next
    }

    /// The text of the current token if it is a run, advancing past it.
    pub fn expect_token(&mut self) -> (r: Result<String, ParseErr>)
        ensures
            outcome(r) == expect_run(old(self)@).0,
            final(self)@ == expect_run(old(self)@).1,
    {
        match &self.curr {
            TokenKind::Token(s) => {
                let s = s.clone();
                self.walk();
                Ok(s)
            },
            _ => Err(ParseErr { expected: Expectation::Run, found: self.curr.clone() }),
        }
    }

    /// Expects the current token to be equal to `tk`, payload included,
    /// and advances past it.
    pub fn expect(&mut self, tk: TokenKind) -> (r: ParseResult)
        ensures
            outcome(r) == expect_exactly(old(self)@, tk@).0,
            final(self)@ == expect_exactly(old(self)@, tk@).1,
    {
        if self.curr.same(&tk) {
            Ok(self.walk())
        } else {
            Err(ParseErr { expected: Expectation::Exactly(tk), found: self.curr.clone() })
        }
    }

    /// Whether the current token is equal to `tk`, payload included.
    pub fn curr_is(&self, tk: TokenKind) -> (r: bool)
        ensures
            r == (self@.curr == tk@),
    {
        self.curr.same(&tk)
    }

    /// Advances past the current token if it is a space: one space at
    /// most, however many follow.
    pub fn opt_space(&mut self)
        ensures
            final(self)@ == skip_space(old(self)@),
    {
        if self.curr_is(TokenKind::Space) {
            self.walk();
        }
    }
}

/// The number of bytes that the tokenizer has not read yet.
pub open spec fn unread(ps: ParserView) -> nat {
    if 0 <= ps.pos < ps.bytes.len() {
        (ps.bytes.len() - ps.pos) as nat
    } else {
        0
    }
}

/// A bound on the number of advances that can still hand out a token
/// other than `Eof`.
pub open spec fn budget(ps: ParserView) -> nat {
    3 * unread(ps) + (if ps.curr is Eof {
        0nat
    } else {
        2nat
    }) + (if ps.next is Eof {
        0nat
    } else {
        1nat
    })
}

/// An advance that hands out a token other than `Eof` lowers the budget.
pub proof fn lemma_walk_spends(ps: ParserView)
    requires
        !(ps.curr is Eof),
    ensures
        budget(walked(ps)) < budget(ps),
{
    if 0 <= ps.pos < ps.bytes.len() {
        lemma_lex_step_advances(ps.bytes, ps.pos);
    }
}

/// The method rule: the method that the current run names, `BAD` where it
/// names none or is no run, and the state after expecting a run.
pub open spec fn method_from(ps: ParserView) -> (HttpMethod, ParserView) {
    (
        match ps.curr {
            Token::Run(text) => method_of(text),
            _ => HttpMethod::BAD,
        },
        expect_run(ps).1,
    )
}

/// The path rule, started with the text `acc`: the result, the state
/// after it, and the text gathered. Tokens are taken one by one. A space,
/// a line end or the end of the input finishes the path; a quote or a bad
/// token fails; the text of any other token is added.
pub open spec fn path_from(ps: ParserView, acc: Seq<char>) -> (
    Result<Seq<char>, Mismatch>,
    ParserView,
    Seq<char>,
)
    decreases budget(ps),
{
    match ps.curr {
        Token::Space | Token::CRLF | Token::Eof => (Ok(acc), walked(ps), acc),
        Token::DQuote | Token::Bad => (
            Err(Mismatch { expected: Wanted::Content, found: ps.curr }),
            walked(ps),
            acc,
        ),
        _ => {
            proof {
                lemma_walk_spends(ps);
            }
            path_from(walked(ps), acc + token_text(ps.curr))
        },
    }
}

/// The name that opens the version.
pub open spec fn protocol_name() -> Seq<char> {
    seq!['H', 'T', 'T', 'P']
}

/// One more expected token after a step that may have failed.
pub open spec fn then_exactly(prev: (Result<Token, Mismatch>, ParserView), kind: Token) -> (
    Result<Token, Mismatch>,
    ParserView,
) {
    match prev.0 {
        Ok(_) => expect_exactly(prev.1, kind),
        Err(e) => (Err(e), prev.1),
    }
}

/// The run `HTTP`, case-sensitively: the first step of the version rule.
pub open spec fn expect_protocol_name(ps: ParserView) -> (Result<Token, Mismatch>, ParserView) {
    match expect_run(ps).0 {
        Ok(text) => if text == protocol_name() {
            (Ok(Token::Run(text)), expect_run(ps).1)
        } else {
            (
                Err(Mismatch { expected: Wanted::ProtocolName, found: Token::Run(text) }),
                expect_run(ps).1,
            )
        },
        Err(e) => (Err(e), expect_run(ps).1),
    }
}

/// The version rule: the run `HTTP`, a slash, the digit 1, a dot, the
/// digit 1. The first step that fails ends the rule with its error.
pub open spec fn version_from(ps: ParserView) -> (Result<HttpVsn, Mismatch>, ParserView) {
    let name = expect_protocol_name(ps);
    let slash = then_exactly(name, Token::Delimiter(DelimiterKind::Slash));
    let major = then_exactly(slash, Token::Char(TCharKind::Digit(1)));
    let dot = then_exactly(major, Token::Char(TCharKind::Dot));
    let minor = then_exactly(dot, Token::Char(TCharKind::Digit(1)));
    match minor.0 {
        Ok(_) => (Ok(HttpVsn::HTTP1_1), minor.1),
        Err(e) => (Err(e), minor.1),
    }
}

/// The mathematical value of a [`RequestLine`].
pub struct RequestLineView {
    pub method: HttpMethod,
    pub path: Seq<char>,
    pub version: HttpVsn,
}

/// The request line rule: method, one space, path, version, line end.
/// The method never fails; any later step that fails ends the rule with
/// its error.
pub open spec fn request_line_from(ps: ParserView) -> (Result<RequestLineView, Mismatch>, ParserView) {
    let method = method_from(ps);
    let space = expect_exactly(method.1, Token::Space);
    match space.0 {
        Err(e) => (Err(e), space.1),
        Ok(_) => {
            let path = path_from(space.1, Seq::empty());
            match path.0 {
                Err(e) => (Err(e), path.1),
                Ok(text) => {
                    let version = version_from(path.1);
                    match version.0 {
                        Err(e) => (Err(e), version.1),
                        Ok(vsn) => {
                            let end = expect_exactly(version.1, Token::CRLF);
                            match end.0 {
                                Err(e) => (Err(e), end.1),
                                Ok(_) => (
                                    Ok(
                                        RequestLineView {
                                            method: method.0,
                                            path: text,
                                            version: vsn,
                                        },
                                    ),
                                    end.1,
                                ),
                            }
                        },
                    }
                },
            }
        },
    }
}

/// The value of a header field, started with the text `acc`: the text of
/// every token up to the line end, which stays current. A bad token or the
/// end of the input fails.
pub open spec fn value_from(ps: ParserView, acc: Seq<char>) -> (
    Result<Seq<char>, Mismatch>,
    ParserView,
)
    decreases budget(ps),
{
    match ps.curr {
        Token::CRLF => (Ok(acc), ps),
        Token::Bad | Token::Eof => (
            Err(Mismatch { expected: Wanted::Content, found: ps.curr }),
            walked(ps),
        ),
        _ => {
            proof {
                lemma_walk_spends(ps);
            }
            value_from(walked(ps), acc + token_text(ps.curr))
        },
    }
}

/// A header value that was read ends at a line end, and reading it did
/// not raise the budget.
pub proof fn lemma_value_ends_line(ps: ParserView, acc: Seq<char>)
    requires
        value_from(ps, acc).0 is Ok,
    ensures
        value_from(ps, acc).1.curr == Token::CRLF,
        budget(value_from(ps, acc).1) <= budget(ps),
    decreases budget(ps),
{
    match ps.curr {
        Token::CRLF => {},
        Token::Bad | Token::Eof => {},
        _ => {
            lemma_walk_spends(ps);
            lemma_value_ends_line(walked(ps), acc + token_text(ps.curr));
        },
    }
}

/// The header fields, started with the fields `acc`. A line end where a
/// field would start is the blank line: it is taken, and the fields are
/// done. Else a field is a run for its name, a colon, one space at most,
/// its value and a line end; a name that comes again replaces the value
/// that it had.
pub open spec fn fields_from(ps: ParserView, acc: Map<Seq<char>, Seq<char>>) -> (
    Result<Map<Seq<char>, Seq<char>>, Mismatch>,
    ParserView,
)
    decreases budget(ps),
{
    if ps.curr == Token::CRLF {
        (Ok(acc), walked(ps))
    } else {
        let name = expect_run(ps);
        match name.0 {
            Err(e) => (Err(e), name.1),
            Ok(key) => {
                let colon = expect_exactly(name.1, Token::Delimiter(DelimiterKind::Colon));
                match colon.0 {
                    Err(e) => (Err(e), colon.1),
                    Ok(_) => {
                        let value = value_from(skip_space(colon.1), Seq::empty());
                        match value.0 {
                            Err(e) => (Err(e), value.1),
                            Ok(text) => {
                                let end = expect_exactly(value.1, Token::CRLF);
                                match end.0 {
                                    Err(e) => (Err(e), end.1),
                                    Ok(_) => {
                                        proof {
                                            lemma_walk_spends(ps);
                                            lemma_walk_spends(name.1);
                                            if colon.1.curr == Token::Space {
                                                lemma_walk_spends(colon.1);
                                            }
                                            lemma_value_ends_line(
                                                skip_space(colon.1),
                                                Seq::empty(),
                                            );
                                            lemma_walk_spends(value.1);
                                        }
                                        fields_from(end.1, acc.insert(key, text))
                                    },
                                }
                            },
                        }
                    },
                }
            },
        }
    }
}

/// The header block rule: the request line, then the header fields up to
/// and with the blank line.
pub open spec fn headers_from(ps: ParserView) -> (Result<HttpEntityView, Mismatch>, ParserView) {
    let line = request_line_from(ps);
    match line.0 {
        Err(e) => (Err(e), line.1),
        Ok(first) => {
            let fields = fields_from(line.1, Map::empty());
            match fields.0 {
                Err(e) => (Err(e), fields.1),
                Ok(headers) => (
                    Ok(
                        HttpEntityView {
                            http_version: first.version,
                            method: first.method,
                            path: first.path,
                            headers,
                        },
                    ),
                    fields.1,
                ),
            }
        },
    }
}

/// The first line of a request: method, path and version.
#[derive(Debug, PartialEq, Eq)]
pub struct RequestLine(pub HttpMethod, pub String, pub HttpVsn);

impl View for RequestLine {
    type V = RequestLineView;

    open spec fn view(&self) -> RequestLineView {
        RequestLineView { method: self.0, path: self.1@, version: self.2 }
    }
}

impl<'a> Parser<'a> {
    /// Parses a method. A method that is not known, or a token that is no
    /// run, gives `BAD`: this rule never fails.
    pub fn method(&mut self) -> (m: HttpMethod)
        ensures
            m == method_from(old(self)@).0,
            final(self)@ == method_from(old(self)@).1,
    {
        match self.expect_token() {
            Ok(s) => HttpMethod::from_name(&s),
            Err(_) => HttpMethod::BAD,
        }
    }

    /// Reads a path, adding its text to `s`, and hands out a copy of `s`
    /// once the path is finished.
    #[verifier::loop_isolation(false)]
    pub fn path(&mut self, s: &mut String) -> (r: Result<String, ParseErr>)
        ensures
            outcome(r) == path_from(old(self)@, old(s)@).0,
            final(self)@ == path_from(old(self)@, old(s)@).1,
            final(s)@ == path_from(old(self)@, old(s)@).2,
    {
        let ghost goal = path_from(self@, s@);
        loop
            invariant
                path_from(self@, s@) == goal,
            decreases budget(self@),
        {
            let ghost before = self@;
            let tk = self.walk();
            match tk {
                TokenKind::Space | TokenKind::CRLF | TokenKind::Eof => {
                    return Ok(s.clone());
                },
                TokenKind::DQuote | TokenKind::Bad => {
                    return Err(ParseErr { expected: Expectation::Content, found: tk });
                },
                tk => {
                    proof {
                        lemma_walk_spends(before);
                    }
                    let text = tk.to_string();
                    s.append(text.as_str());
                },
            }
        }
    }

    /// Parses the version `HTTP/1.1`, the only one there is.
    pub fn http_1_1(&mut self) -> (r: Result<HttpVsn, ParseErr>)
        ensures
            outcome(r) == version_from(old(self)@).0,
            final(self)@ == version_from(old(self)@).1,
    {
        let http = match self.expect_token() {
            Ok(http) => http,
            Err(e) => {
                return Err(e);
            },
        };
        proof {
            reveal_strlit("HTTP");
            assert("HTTP"@ =~= protocol_name());
        }
        if !(http == String::from_str("HTTP")) {
            return Err(
                ParseErr { expected: Expectation::ProtocolName, found: TokenKind::Token(http) },
            );
        }
        match self.expect(TokenKind::Delimiter(DelimiterKind::Slash)) {
            Ok(_) => {},
            Err(e) => {
                return Err(e);
            },
        }
        match self.expect(TokenKind::Char(TCharKind::Digit(1))) {
            Ok(_) => {},
            Err(e) => {
                return Err(e);
            },
        }
        match self.expect(TokenKind::Char(TCharKind::Dot)) {
            Ok(_) => {},
            Err(e) => {
                return Err(e);
            },
        }
        match self.expect(TokenKind::Char(TCharKind::Digit(1))) {
            Ok(_) => {},
            Err(e) => {
                return Err(e);
            },
        }
        Ok(HttpVsn::HTTP1_1)
    }

    /// Parses a request line, such as `GET /items HTTP/1.1` with its line
    /// end.
    pub fn request_line(&mut self) -> (r: Result<RequestLine, ParseErr>)
        ensures
            outcome(r) == request_line_from(old(self)@).0,
            final(self)@ == request_line_from(old(self)@).1,
    {
        let method = self.method();
        match self.expect(TokenKind::Space) {
            Ok(_) => {},
            Err(e) => {
                return Err(e);
            },
        }
        let mut text = String::new();
        let path = match self.path(&mut text) {
            Ok(path) => path,
            Err(e) => {
                return Err(e);
            },
        };
        let http_version = match self.http_1_1() {
            Ok(vsn) => vsn,
            Err(e) => {
                return Err(e);
            },
        };
        match self.expect(TokenKind::CRLF) {
            Ok(_) => {},
            Err(e) => {
                return Err(e);
            },
        }
        Ok(RequestLine(method, path, http_version))
    }

    /// Reads the value of a header field: the text of every token up to
    /// the line end, which stays current.
    #[verifier::loop_isolation(false)]
    pub fn header_value(&mut self) -> (r: Result<String, ParseErr>)
        ensures
            outcome(r) == value_from(old(self)@, Seq::empty()).0,
            final(self)@ == value_from(old(self)@, Seq::empty()).1,
    {
        let ghost goal = value_from(self@, Seq::empty());
        let mut val = String::new();
        while !self.curr_is(TokenKind::CRLF)
            invariant
                value_from(self@, val@) == goal,
            decreases budget(self@),
        {
            let ghost before = self@;
            let tk = self.walk();
            match tk {
                TokenKind::Bad | TokenKind::Eof => {
                    return Err(ParseErr { expected: Expectation::Content, found: tk });
                },
                tk => {
                    proof {
                        lemma_walk_spends(before);
                    }
                    let text = tk.to_string();
                    val.append(text.as_str());
                },
            }
        }
        Ok(val)
    }

    /// Parses a request head: the request line, then the header fields up
    /// to and with the blank line.
    #[verifier::loop_isolation(false)]
    pub fn headers(&mut self) -> (r: Result<HttpEntity, ParseErr>)
        ensures
            outcome(r) == headers_from(old(self)@).0,
            final(self)@ == headers_from(old(self)@).1,
    {
        let request_line = match self.request_line() {
            Ok(line) => line,
            Err(e) => {
                return Err(e);
            },
        };
        let mut headers = Headers::new();
        let ghost goal = fields_from(self@, Map::empty());
        while !self.curr_is(TokenKind::CRLF)
            invariant
                fields_from(self@, headers@) == goal,
            decreases budget(self@),
        {
            let ghost before = self@;
            let tk = match self.expect_token() {
                Ok(tk) => tk,
                Err(e) => {
                    return Err(e);
                },
            };
            match self.expect(TokenKind::Delimiter(DelimiterKind::Colon)) {
                Ok(_) => {},
                Err(e) => {
                    return Err(e);
                },
            }
            let ghost named = self@;
            self.opt_space();
            let ghost spaced = self@;
            let val = match self.header_value() {
                Ok(val) => val,
                Err(e) => {
                    return Err(e);
                },
            };
            let ghost valued = self@;
            match self.expect(TokenKind::CRLF) {
                Ok(_) => {},
                Err(e) => {
                    return Err(e);
                },
            }
            proof {
                lemma_walk_spends(before);
                lemma_walk_spends(expect_run(before).1);
                if named.curr == Token::Space {
                    lemma_walk_spends(named);
                }
                lemma_value_ends_line(spaced, Seq::empty());
                lemma_walk_spends(valued);
            }
            headers.insert(tk, val);
        }
        self.walk();
        Ok(
            HttpEntity {
                method: request_line.0,
                http_version: request_line.2,
                path: request_line.1,
                headers,
            },
        )
    }
}

} // verus!
