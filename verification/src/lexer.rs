//! The tokenizer: a cursor over a byte buffer that classifies bytes into
//! tokens, one token per call.

use vstd::prelude::*;

verus! {

/// A mark character standing alone, a single decimal digit, or a single
/// letter.
#[derive(Debug, Clone, Copy, PartialEq, Eq, Structural)]
pub enum TCharKind {
    ExclamationMark,
    Hash,
    DollarSign,
    Percent,
    And,
    SQuote,
    Star,
    Plus,
    Min,
    Dot,
    Circumflex,
    Underscore,
    Backquote,
    Pipe,
    Tilde,
    /// The value of one decimal digit.
    Digit(u8),
    /// One letter that no letter or digit follows.
    Alpha(char),
}

/// The structural punctuation of the grammar.
#[derive(Debug, Clone, Copy, PartialEq, Eq, Structural)]
pub enum DelimiterKind {
    LParen,
    RParen,
    Comma,
    Slash,
    Colon,
    Semicolon,
    GT,
    Equal,
    LT,
    QuestionMark,
    At,
    LBracket,
    Backslash,
    RBracket,
    LBrace,
    RBrace,
}

/// One classified unit of the input.
#[derive(Debug, PartialEq, Eq)]
pub enum TokenKind {
    Char(TCharKind),
    /// A run of letters and mark characters, as it stood in the input.
    Token(String),
    Delimiter(DelimiterKind),
    DQuote,
    CR,
    LF,
    CRLF,
    Space,
    Bad,
    Eof,
}

/// The mathematical value of a token: the same variants, with the text of a
/// run as a sequence of characters.
pub enum Token {
    Char(TCharKind),
    Run(Seq<char>),
    Delimiter(DelimiterKind),
    DQuote,
    CR,
    LF,
    CRLF,
    Space,
    Bad,
    Eof,
}

impl View for TokenKind {
    type V = Token;

    open spec fn view(&self) -> Token {
        match self {
            TokenKind::Char(k) => Token::Char(*k),
            TokenKind::Token(s) => Token::Run(s@),
            TokenKind::Delimiter(d) => Token::Delimiter(*d),
            TokenKind::DQuote => Token::DQuote,
            TokenKind::CR => Token::CR,
            TokenKind::LF => Token::LF,
            TokenKind::CRLF => Token::CRLF,
            TokenKind::Space => Token::Space,
            TokenKind::Bad => Token::Bad,
            TokenKind::Eof => Token::Eof,
        }
    }
}

/// The decimal digits of a byte's value, most significant first.
pub open spec fn decimal_text(d: u8) -> Seq<char> {
    if d >= 100 {
        seq![digit_char(d / 100), digit_char((d / 10) % 10), digit_char(d % 10)]
    } else if d >= 10 {
        seq![digit_char(d / 10), digit_char(d % 10)]
    } else {
        seq![digit_char(d)]
    }
}

/// The character that writes a digit's value.
pub open spec fn digit_char(d: u8) -> char
    recommends
        d < 10,
{
    (d + 48) as u8 as char
}

/// The character that a mark, digit or letter token writes, where it is a
/// single one.
pub open spec fn mark_char(k: TCharKind) -> char {
    match k {
        TCharKind::ExclamationMark => '!',
        TCharKind::Hash => '#',
        TCharKind::DollarSign => '$',
        TCharKind::Percent => '%',
        TCharKind::And => '&',
        TCharKind::SQuote => '\'',
        TCharKind::Star => '*',
        TCharKind::Plus => '+',
        TCharKind::Min => '-',
        TCharKind::Dot => '.',
        TCharKind::Circumflex => '^',
        TCharKind::Underscore => '_',
        TCharKind::Backquote => '`',
        TCharKind::Pipe => '|',
        TCharKind::Tilde => '~',
        TCharKind::Digit(d) => digit_char(d),
        TCharKind::Alpha(a) => a,
    }
}

/// The text of a mark, digit or letter token.
pub open spec fn tchar_text(k: TCharKind) -> Seq<char> {
    match k {
        TCharKind::Digit(d) => decimal_text(d),
        _ => seq![mark_char(k)],
    }
}

/// The character that a delimiter writes.
pub open spec fn delimiter_char(d: DelimiterKind) -> char {
    match d {
        DelimiterKind::LParen => '(',
        DelimiterKind::RParen => ')',
        DelimiterKind::Comma => ',',
        DelimiterKind::Slash => '/',
        DelimiterKind::Colon => ':',
        DelimiterKind::Semicolon => ';',
        DelimiterKind::GT => '>',
        DelimiterKind::Equal => '=',
        DelimiterKind::LT => '<',
        DelimiterKind::QuestionMark => '?',
        DelimiterKind::At => '@',
        DelimiterKind::LBracket => '[',
        DelimiterKind::Backslash => '\\',
        DelimiterKind::RBracket => ']',
        DelimiterKind::LBrace => '{',
        DelimiterKind::RBrace => '}',
    }
}

/// The text that a token stands for. The two tokens that stand for no text,
/// `Bad` and `Eof`, are given the empty text.
pub open spec fn token_text(t: Token) -> Seq<char> {
    match t {
        Token::Char(k) => tchar_text(k),
        Token::Run(s) => s,
        Token::Delimiter(d) => seq![delimiter_char(d)],
        Token::DQuote => seq!['"'],
        Token::CR => seq!['\r'],
        Token::LF => seq!['\n'],
        Token::CRLF => seq!['\r', '\n'],
        Token::Space => seq![' '],
        Token::Bad => Seq::empty(),
        Token::Eof => Seq::empty(),
    }
}

/// `String::push` appends one character to the end of the string.
#[verifier::external_body]
pub(crate) fn push_char(s: &mut String, c: char)
    ensures
        final(s)@ == old(s)@.push(c),
{
    s.push(c)
}

/// A string of one character.
fn one_char(c: char) -> (s: String)
    ensures
        s@ == seq![c],
{
    let mut s = String::new();
    push_char(&mut s, c);
    assert(s@ =~= seq![c]);
    s
}

/// The character that writes a digit's value.
fn digit_to_char(d: u8) -> (c: char)
    requires
        d < 10,
    ensures
        c == digit_char(d),
{
    (d + 48) as char
}

impl DelimiterKind {
    /// The delimiter as text.
    pub fn to_string(&self) -> (s: String)
        ensures
            s@ == seq![delimiter_char(*self)],
    {
        let c = match self {
            DelimiterKind::LParen => '(',
            DelimiterKind::RParen => ')',
            DelimiterKind::Comma => ',',
            DelimiterKind::Slash => '/',
            DelimiterKind::Colon => ':',
            DelimiterKind::Semicolon => ';',
            DelimiterKind::GT => '>',
            DelimiterKind::Equal => '=',
            DelimiterKind::LT => '<',
            DelimiterKind::QuestionMark => '?',
            DelimiterKind::At => '@',
            DelimiterKind::LBracket => '[',
            DelimiterKind::Backslash => '\\',
            DelimiterKind::RBracket => ']',
            DelimiterKind::LBrace => '{',
            DelimiterKind::RBrace => '}',
        };
        one_char(c)
    }
}

impl TCharKind {
    /// The token as text: the mark or letter itself, or a digit's value in
    /// decimal.
    pub fn to_string(&self) -> (s: String)
        ensures
            s@ == tchar_text(*self),
    {
        match self {
            TCharKind::ExclamationMark => one_char('!'),
            TCharKind::Hash => one_char('#'),
            TCharKind::DollarSign => one_char('$'),
            TCharKind::Percent => one_char('%'),
            TCharKind::And => one_char('&'),
            TCharKind::SQuote => one_char('\''),
            TCharKind::Star => one_char('*'),
            TCharKind::Plus => one_char('+'),
            TCharKind::Min => one_char('-'),
            TCharKind::Dot => one_char('.'),
            TCharKind::Circumflex => one_char('^'),
            TCharKind::Underscore => one_char('_'),
            TCharKind::Backquote => one_char('`'),
            TCharKind::Pipe => one_char('|'),
            TCharKind::Tilde => one_char('~'),
            TCharKind::Digit(d) => {
                let d: u8 = *d;
                let mut s = String::new();
                if d >= 100 {
                    push_char(&mut s, digit_to_char(d / 100));
                }
                if d >= 10 {
                    push_char(&mut s, digit_to_char((d / 10) % 10));
                }
                push_char(&mut s, digit_to_char(d % 10));
                assert(s@ =~= decimal_text(d));
                s
            },
            TCharKind::Alpha(a) => one_char(*a),
        }
    }
}

impl TokenKind {
    /// The token as text. `Bad` and `Eof` stand for no text and are left out.
    pub fn to_string(&self) -> (s: String)
        requires
            !(self is Bad),
            !(self is Eof),
        ensures
            s@ == token_text(self@),
    {
        match self {
            TokenKind::Token(tk) => tk.clone(),
            TokenKind::Char(tck) => tck.to_string(),
            TokenKind::Delimiter(dk) => dk.to_string(),
            TokenKind::DQuote => one_char('"'),
            TokenKind::CR => one_char('\r'),
            TokenKind::LF => one_char('\n'),
            TokenKind::CRLF => {
                let mut s = one_char('\r');
                push_char(&mut s, '\n');
                assert(s@ =~= seq!['\r', '\n']);
                s
            },
            TokenKind::Space => one_char(' '),
            TokenKind::Bad | TokenKind::Eof => unreached(),
        }
    }
}

impl TokenKind {
    /// Whether two tokens are the same variant with the same payload.
    pub fn same(&self, other: &TokenKind) -> (r: bool)
        ensures
            r == (self@ == other@),
    {
        match (self, other) {
            (TokenKind::Char(a), TokenKind::Char(b)) => *a == *b,
            (TokenKind::Token(a), TokenKind::Token(b)) => *a == *b,
            (TokenKind::Delimiter(a), TokenKind::Delimiter(b)) => *a == *b,
            (TokenKind::DQuote, TokenKind::DQuote) => true,
            (TokenKind::CR, TokenKind::CR) => true,
            (TokenKind::LF, TokenKind::LF) => true,
            (TokenKind::CRLF, TokenKind::CRLF) => true,
            (TokenKind::Space, TokenKind::Space) => true,
            (TokenKind::Bad, TokenKind::Bad) => true,
            (TokenKind::Eof, TokenKind::Eof) => true,
            _ => false,
        }
    }
}

impl Clone for TokenKind {
    fn clone(&self) -> (r: Self)
        ensures
            r@ == self@,
    {
        match self {
            TokenKind::Char(k) => TokenKind::Char(*k),
            TokenKind::Token(s) => TokenKind::Token(s.clone()),
            TokenKind::Delimiter(d) => TokenKind::Delimiter(*d),
            TokenKind::DQuote => TokenKind::DQuote,
            TokenKind::CR => TokenKind::CR,
            TokenKind::LF => TokenKind::LF,
            TokenKind::CRLF => TokenKind::CRLF,
            TokenKind::Space => TokenKind::Space,
            TokenKind::Bad => TokenKind::Bad,
            TokenKind::Eof => TokenKind::Eof,
        }
    }
}

/// The byte that ends the input where it stands.
pub const NUL: u8 = 0;

/// The line feed.
pub const LINE_FEED: u8 = 10;

/// The carriage return.
pub const CARRIAGE_RETURN: u8 = 13;

/// The space.
pub const SPACE: u8 = 32;

/// The double quote.
pub const DOUBLE_QUOTE: u8 = 34;

/// The slash.
pub const SLASH: u8 = 47;

/// The colon.
pub const COLON: u8 = 58;

/// Whether a byte is an ASCII letter.
pub open spec fn letter_byte(b: u8) -> bool {
    (65 <= b <= 90) || (97 <= b <= 122)
}

/// Whether a byte is an ASCII decimal digit.
pub open spec fn digit_byte(b: u8) -> bool {
    48 <= b <= 57
}

/// The mark that a byte writes, if it writes one.
pub open spec fn mark_kind(b: u8) -> Option<TCharKind> {
    if b == 33 {
        Some(TCharKind::ExclamationMark)
    } else if b == 35 {
        Some(TCharKind::Hash)
    } else if b == 36 {
        Some(TCharKind::DollarSign)
    } else if b == 37 {
        Some(TCharKind::Percent)
    } else if b == 38 {
        Some(TCharKind::And)
    } else if b == 39 {
        Some(TCharKind::SQuote)
    } else if b == 42 {
        Some(TCharKind::Star)
    } else if b == 43 {
        Some(TCharKind::Plus)
    } else if b == 45 {
        Some(TCharKind::Min)
    } else if b == 46 {
        Some(TCharKind::Dot)
    } else if b == 94 {
        Some(TCharKind::Circumflex)
    } else if b == 95 {
        Some(TCharKind::Underscore)
    } else if b == 96 {
        Some(TCharKind::Backquote)
    } else if b == 124 {
        Some(TCharKind::Pipe)
    } else if b == 126 {
        Some(TCharKind::Tilde)
    } else {
        None
    }
}

/// Whether a byte is one of the fifteen mark characters.
pub open spec fn mark_byte(b: u8) -> bool {
    mark_kind(b) is Some
}

/// Whether a byte may stand inside a run: a letter or a mark character.
pub open spec fn run_byte(b: u8) -> bool {
    letter_byte(b) || mark_byte(b)
}

/// The first position at or after `pos` whose byte may not stand inside a
/// run, or the end of the buffer.
pub open spec fn run_end(bytes: Seq<u8>, pos: int) -> int
    decreases bytes.len() - pos,
{
    if 0 <= pos < bytes.len() && run_byte(bytes[pos]) {
        run_end(bytes, pos + 1)
    } else {
        pos
    }
}

/// Bytes read as text, each byte as the character of the same number.
pub open spec fn bytes_text(bytes: Seq<u8>) -> Seq<char> {
    bytes.map_values(|b: u8| b as char)
}

/// One step of the tokenizer: the token that starts at `pos` and the
/// position after it. At or past the end of the buffer the token is `Eof`
/// and the position stays.
pub open spec fn lex_step(bytes: Seq<u8>, pos: int) -> (Token, int) {
    if !(0 <= pos < bytes.len()) {
        (Token::Eof, pos)
    } else {
        let b = bytes[pos];
        if b == NUL {
            (Token::Eof, pos + 1)
        } else if b == SPACE {
            (Token::Space, pos + 1)
        } else if mark_kind(b) is Some {
            (Token::Char(mark_kind(b)->0), pos + 1)
        } else if b == DOUBLE_QUOTE {
            (Token::DQuote, pos + 1)
        } else if b == COLON {
            (Token::Delimiter(DelimiterKind::Colon), pos + 1)
        } else if b == SLASH {
            (Token::Delimiter(DelimiterKind::Slash), pos + 1)
        } else if b == CARRIAGE_RETURN {
            if pos + 1 < bytes.len() && bytes[pos + 1] == LINE_FEED {
                (Token::CRLF, pos + 2)
            } else {
                (Token::CR, pos + 1)
            }
        } else if b == LINE_FEED {
            (Token::LF, pos + 1)
        } else if digit_byte(b) {
            (Token::Char(TCharKind::Digit((b - 48) as u8)), pos + 1)
        } else if letter_byte(b) {
            if pos + 1 < bytes.len() && (letter_byte(bytes[pos + 1]) || digit_byte(
                bytes[pos + 1],
            )) {
                (Token::Run(bytes_text(bytes.subrange(pos, run_end(bytes, pos)))), run_end(bytes, pos))
            } else {
                (Token::Char(TCharKind::Alpha(b as char)), pos + 1)
            }
        } else {
            (Token::Bad, pos + 1)
        }
    }
}

/// A run ends inside the buffer, at or after the position where it starts.
pub proof fn lemma_run_end_bounds(bytes: Seq<u8>, pos: int)
    requires
        0 <= pos <= bytes.len(),
    ensures
        pos <= run_end(bytes, pos) <= bytes.len(),
        forall|i: int| pos <= i < run_end(bytes, pos) ==> run_byte(#[trigger] bytes[i]),
        run_end(bytes, pos) < bytes.len() ==> !run_byte(bytes[run_end(bytes, pos)]),
    decreases bytes.len() - pos,
{
    if pos < bytes.len() && run_byte(bytes[pos]) {
        lemma_run_end_bounds(bytes, pos + 1);
    }
}

/// Every step ends inside the buffer, and moves forward unless the buffer
/// is used up.
pub proof fn lemma_lex_step_advances(bytes: Seq<u8>, pos: int)
    requires
        0 <= pos <= bytes.len(),
    ensures
        pos <= lex_step(bytes, pos).1 <= bytes.len(),
        pos < bytes.len() ==> pos < lex_step(bytes, pos).1,
        pos == bytes.len() ==> lex_step(bytes, pos) == (Token::Eof, pos),
{
    if pos < bytes.len() {
        lemma_run_end_bounds(bytes, pos);
        if run_byte(bytes[pos]) {
            lemma_run_end_bounds(bytes, pos + 1);
        }
    }
}

/// The tokens from `pos` on, up to and without the first `Eof`.
pub open spec fn token_stream(bytes: Seq<u8>, pos: int) -> Seq<Token>
    decreases bytes.len() - pos,
{
    if 0 <= pos < bytes.len() && !(lex_step(bytes, pos).0 is Eof) {
        proof {
            lemma_lex_step_advances(bytes, pos);
        }
        seq![lex_step(bytes, pos).0] + token_stream(bytes, lex_step(bytes, pos).1)
    } else {
        Seq::empty()
    }
}

/// The position after the first `Eof` from `pos` on.
pub open spec fn stream_end(bytes: Seq<u8>, pos: int) -> int
    decreases bytes.len() - pos,
{
    if 0 <= pos < bytes.len() && !(lex_step(bytes, pos).0 is Eof) {
        proof {
            lemma_lex_step_advances(bytes, pos);
        }
        stream_end(bytes, lex_step(bytes, pos).1)
    } else {
        lex_step(bytes, pos).1
    }
}

/// Whether a byte is an ASCII letter.
pub fn is_letter(b: u8) -> (r: bool)
    ensures
        r == letter_byte(b),
{
    (65 <= b && b <= 90) || (97 <= b && b <= 122)
}

/// Whether a byte is an ASCII decimal digit.
pub fn is_digit(b: u8) -> (r: bool)
    ensures
        r == digit_byte(b),
{
    48 <= b && b <= 57
}

/// The mark that a byte writes, if it writes one.
pub fn tchar_of(b: u8) -> (r: Option<TCharKind>)
    ensures
        r == mark_kind(b),
{
    if b == 33 {
        Some(TCharKind::ExclamationMark)
    } else if b == 35 {
        Some(TCharKind::Hash)
    } else if b == 36 {
        Some(TCharKind::DollarSign)
    } else if b == 37 {
        Some(TCharKind::Percent)
    } else if b == 38 {
        Some(TCharKind::And)
    } else if b == 39 {
        Some(TCharKind::SQuote)
    } else if b == 42 {
        Some(TCharKind::Star)
    } else if b == 43 {
        Some(TCharKind::Plus)
    } else if b == 45 {
        Some(TCharKind::Min)
    } else if b == 46 {
        Some(TCharKind::Dot)
    } else if b == 94 {
        Some(TCharKind::Circumflex)
    } else if b == 95 {
        Some(TCharKind::Underscore)
    } else if b == 96 {
        Some(TCharKind::Backquote)
    } else if b == 124 {
        Some(TCharKind::Pipe)
    } else if b == 126 {
        Some(TCharKind::Tilde)
    } else {
        None
    }
}

/// Whether a byte is one of the fifteen mark characters.
pub fn is_tchar(b: u8) -> (r: bool)
    ensures
        r == mark_byte(b),
{
    tchar_of(b).is_some()
}

/// Whether a byte may stand inside a run.
pub fn is_tkn(b: u8) -> (r: bool)
    ensures
        r == run_byte(b),
{
    is_letter(b) || is_tchar(b)
}

/// The state of a tokenizer: the buffer, which never changes, and the
/// position of the next byte to read.
pub struct LexerView {
    pub bytes: Seq<u8>,
    pub pos: nat,
}

/// A cursor over a byte buffer. It is the only reader of the buffer while
/// it lives, and only ever moves forward.
pub struct Lexer<'a> {
    bytes: &'a [u8],
    pos: usize,
}

impl<'a> View for Lexer<'a> {
    type V = LexerView;

    closed spec fn view(&self) -> LexerView {
        LexerView { bytes: self.bytes@, pos: self.pos as nat }
    }
}

impl<'a> Lexer<'a> {
    /// A tokenizer at the start of `bytes`.
    pub fn new(bytes: &'a [u8]) -> (lexer: Self)
        ensures
            lexer@ == (LexerView { bytes: bytes@, pos: 0 }),
    {
        Self { bytes, pos: 0 }
    }

    /// Reads a token.
    pub fn lex(&mut self) -> (tk: TokenKind)
        ensures
            tk@ == lex_step(old(self)@.bytes, old(self)@.pos as int).0,
            final(self)@.bytes == old(self)@.bytes,
            final(self)@.pos == lex_step(old(self)@.bytes, old(self)@.pos as int).1,
    {
        if self.pos >= self.bytes.len() {
            return TokenKind::Eof;
        }
        let u: u8 = self.bytes[self.pos];
        if u == NUL {
            return self.just(TokenKind::Eof);
        }
        if u == SPACE {
            return self.just(TokenKind::Space);
        }
        if let Some(mark) = tchar_of(u) {
            return self.just(TokenKind::Char(mark));
        }
        if u == DOUBLE_QUOTE {
            self.just(TokenKind::DQuote)
        } else if u == COLON {
            self.just(TokenKind::Delimiter(DelimiterKind::Colon))
        } else if u == SLASH {
            self.just(TokenKind::Delimiter(DelimiterKind::Slash))
        } else if u == CARRIAGE_RETURN {
            self.eat();
            if self.pos < self.bytes.len() && self.bytes[self.pos] == LINE_FEED {
                self.just(TokenKind::CRLF)
            } else {
                TokenKind::CR
            }
        } else if u == LINE_FEED {
            self.just(TokenKind::LF)
        } else if is_digit(u) {
            self.digit()
        } else if is_letter(u) {
            let follows: bool = self.pos + 1 < self.bytes.len() && (is_letter(
                self.bytes[self.pos + 1],
            ) || is_digit(self.bytes[self.pos + 1]));
            if follows {
                self.accu_token()
            } else {
                self.just(TokenKind::Char(TCharKind::Alpha(u as char)))
            }
        } else {
            self.just(TokenKind::Bad)
        }
    }

    /// Takes the byte under the cursor, if there is one, and moves past it.
    pub fn eat(&mut self) -> (b: Option<&'a u8>)
        ensures
            final(self)@.bytes == old(self)@.bytes,
            old(self)@.pos < old(self)@.bytes.len() ==> b == Some(
                &old(self)@.bytes[old(self)@.pos as int],
            ) && final(self)@.pos == old(self)@.pos + 1,
            old(self)@.pos >= old(self)@.bytes.len() ==> b is None && final(self)@.pos == old(
                self,
            )@.pos,
    {
        if self.pos < self.bytes.len() {
            let b = &self.bytes[self.pos];
            self.pos = self.pos + 1;
            Some(b)
        } else {
            None
        }
    }

    /// Moves past the byte under the cursor, if there is one, and hands
    /// `tk` back.
    pub fn just(&mut self, tk: TokenKind) -> (r: TokenKind)
        ensures
            r == tk,
            final(self)@.bytes == old(self)@.bytes,
            final(self)@.pos == if old(self)@.pos < old(self)@.bytes.len() {
                old(self)@.pos + 1
            } else {
                old(self)@.pos
            },
    {
        self.eat();
        tk
    }

    /// Reads a run: every byte from the cursor on that may stand inside one.
    fn accu_token(&mut self) -> (tk: TokenKind)
        requires
            old(self)@.pos <= old(self)@.bytes.len(),
        ensures
            final(self)@.bytes == old(self)@.bytes,
            final(self)@.pos == run_end(old(self)@.bytes, old(self)@.pos as int),
            tk@ == Token::Run(
                bytes_text(
                    old(self)@.bytes.subrange(
                        old(self)@.pos as int,
                        run_end(old(self)@.bytes, old(self)@.pos as int),
                    ),
                ),
            ),
    {
        let ghost start: int = self.pos as int;
        let ghost all: Seq<u8> = self.bytes@;
        let mut seq = String::new();
        proof {
            lemma_run_end_bounds(all, start);
            assert(seq@ =~= bytes_text(all.subrange(start, start)));
        }
        while self.pos < self.bytes.len() && is_tkn(self.bytes[self.pos])
            invariant
                self.bytes@ == all,
                0 <= start <= self.pos <= all.len(),
                run_end(all, self.pos as int) == run_end(all, start),
                seq@ == bytes_text(all.subrange(start, self.pos as int)),
            decreases all.len() - self.pos,
        {
            let c: char = self.bytes[self.pos] as char;
            push_char(&mut seq, c);
            proof {
                assert(all.subrange(start, self.pos + 1) =~= all.subrange(
                    start,
                    self.pos as int,
                ).push(all[self.pos as int]));
                assert(seq@ =~= bytes_text(all.subrange(start, self.pos + 1)));
            }
            self.pos = self.pos + 1;
        }
        TokenKind::Token(seq)
    }

    /// Reads one decimal digit.
    fn digit(&mut self) -> (tk: TokenKind)
        requires
            old(self)@.pos < old(self)@.bytes.len(),
            digit_byte(old(self)@.bytes[old(self)@.pos as int]),
        ensures
            final(self)@.bytes == old(self)@.bytes,
            final(self)@.pos == old(self)@.pos + 1,
            tk@ == Token::Char(TCharKind::Digit((old(self)@.bytes[old(self)@.pos as int] - 48) as u8)),
    {
        let b: u8 = self.bytes[self.pos];
        self.pos = self.pos + 1;
        TokenKind::Char(TCharKind::Digit(b - 48))
    }

    /// Reads a token and hands it out, unless it is the end of the input.
    pub fn next(&mut self) -> (item: Option<TokenKind>)
        ensures
            final(self)@.bytes == old(self)@.bytes,
            final(self)@.pos == lex_step(old(self)@.bytes, old(self)@.pos as int).1,
            lex_step(old(self)@.bytes, old(self)@.pos as int).0 is Eof ==> item is None,
            !(lex_step(old(self)@.bytes, old(self)@.pos as int).0 is Eof) ==> item is Some
                && item->0@ == lex_step(old(self)@.bytes, old(self)@.pos as int).0,
    {
        let t = self.lex();
        match t {
            TokenKind::Eof => None,
            other => Some(other),
        }
    }

    /// Reads every token up to the end of the input, which is taken but
    /// not handed out.
    pub fn tokens(&mut self) -> (list: Vec<TokenKind>)
        ensures
            final(self)@.bytes == old(self)@.bytes,
            final(self)@.pos == stream_end(old(self)@.bytes, old(self)@.pos as int),
            list@.map_values(|tk: TokenKind| tk@) == token_stream(
                old(self)@.bytes,
                old(self)@.pos as int,
            ),
    {
        let ghost bytes = self@.bytes;
        let ghost start = self@.pos as int;
        let mut list: Vec<TokenKind> = Vec::new();
        proof {
            assert(list@.map_values(|tk: TokenKind| tk@) =~= Seq::<Token>::empty());
        }
        loop
            invariant
                self@.bytes == bytes,
                bytes == old(self)@.bytes,
                start == old(self)@.pos,
                list@.map_values(|tk: TokenKind| tk@) + token_stream(bytes, self@.pos as int)
                    == token_stream(bytes, start),
                stream_end(bytes, self@.pos as int) == stream_end(bytes, start),
            decreases bytes.len() - self@.pos,
        {
            let ghost here = self@.pos as int;
            let ghost read = list@.map_values(|tk: TokenKind| tk@);
            match self.next() {
                None => {
                    proof {
                        assert(token_stream(bytes, here) =~= Seq::<Token>::empty());
                        assert(read + token_stream(bytes, here) =~= read);
                    }
                    return list;
                },
                Some(tk) => {
                    proof {
                        if here < bytes.len() {
                            lemma_lex_step_advances(bytes, here);
                        }
                    }
                    list.push(tk);
                    proof {
                        assert(list@.map_values(|tk: TokenKind| tk@) =~= read + seq![tk@]);
                        assert(read + seq![tk@] + token_stream(bytes, self@.pos as int) =~= read + (
                        seq![tk@] + token_stream(bytes, self@.pos as int)));
                    }
                },
            }
        }
    }
}

} // verus!
