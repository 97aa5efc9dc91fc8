//! The character-level scanner: turns source text into a stream of tokens,
//! tracking the line and column where each token starts.

use vstd::prelude::*;

use crate::error::{ErrorLocation, ErrorLocationView, SyntaxError, SyntaxErrorView};
use crate::strings::{chars_vec, push_char};

verus! {

/// True of the characters carrying the Unicode `White_Space` property,
/// the set that the scanner skips between tokens.
pub open spec fn is_whitespace_char(c: char) -> bool {
    let v = c as u32;
    v == 0x09 || v == 0x0A || v == 0x0B || v == 0x0C || v == 0x0D || v == 0x20 || v == 0x85
        || v == 0xA0 || v == 0x1680 || (0x2000 <= v && v <= 0x200A) || v == 0x2028 || v == 0x2029
        || v == 0x202F || v == 0x205F || v == 0x3000
}

/// True of the characters that may start an identifier: ASCII letters and `_`.
pub open spec fn is_ident_start_char(c: char) -> bool {
    let v = c as u32;
    (0x61 <= v && v <= 0x7A) || (0x41 <= v && v <= 0x5A) || v == 0x5F
}

/// True of the characters that may continue an identifier: ASCII letters,
/// ASCII digits and `_`.
pub open spec fn is_ident_char(c: char) -> bool {
    let v = c as u32;
    is_ident_start_char(c) || (0x30 <= v && v <= 0x39)
}

fn char_is_whitespace(c: char) -> (b: bool)
    ensures
        b == is_whitespace_char(c),
{
    let v = c as u32;
    v == 0x09 || v == 0x0A || v == 0x0B || v == 0x0C || v == 0x0D || v == 0x20 || v == 0x85
        || v == 0xA0 || v == 0x1680 || (0x2000 <= v && v <= 0x200A) || v == 0x2028 || v == 0x2029
        || v == 0x202F || v == 0x205F || v == 0x3000
}

fn char_is_ident_start(c: char) -> (b: bool)
    ensures
        b == is_ident_start_char(c),
{
    let v = c as u32;
    (0x61 <= v && v <= 0x7A) || (0x41 <= v && v <= 0x5A) || v == 0x5F
}

fn char_is_ident(c: char) -> (b: bool)
    ensures
        b == is_ident_char(c),
{
    let v = c as u32;
    (0x61 <= v && v <= 0x7A) || (0x41 <= v && v <= 0x5A) || v == 0x5F || (0x30 <= v && v <= 0x39)
}

/// A reserved word of the language.
#[derive(Debug, Clone, Copy, PartialEq, Eq, Structural)]
pub enum Keyword {
    Func,
    Impure,
}

/// What kind of token was scanned, with the text of identifiers and string
/// literals.
#[derive(Debug)]
pub enum TokenKind {
    Identifier(String),
    Keyword(Keyword),
    StringLiteral(String),
    OpenParen,
    CloseParen,
    OpenCurly,
    CloseCurly,
    Comma,
    Semicolon,
}

/// One token, with the line and column where it starts.
#[derive(Debug)]
pub struct Token {
    pub line: usize,
    pub column: usize,
    pub kind: TokenKind,
}

/// The mathematical value of a [`TokenKind`].
pub enum TokenKindView {
    Identifier(Seq<char>),
    Keyword(Keyword),
    StringLiteral(Seq<char>),
    OpenParen,
    CloseParen,
    OpenCurly,
    CloseCurly,
    Comma,
    Semicolon,
}

/// The mathematical value of a [`Token`].
pub struct TokenView {
    pub line: nat,
    pub column: nat,
    pub kind: TokenKindView,
}

impl DeepView for TokenKind {
    type V = TokenKindView;

    open spec fn deep_view(&self) -> TokenKindView {
        match self {
            TokenKind::Identifier(s) => TokenKindView::Identifier(s@),
            TokenKind::Keyword(k) => TokenKindView::Keyword(*k),
            TokenKind::StringLiteral(s) => TokenKindView::StringLiteral(s@),
            TokenKind::OpenParen => TokenKindView::OpenParen,
            TokenKind::CloseParen => TokenKindView::CloseParen,
            TokenKind::OpenCurly => TokenKindView::OpenCurly,
            TokenKind::CloseCurly => TokenKindView::CloseCurly,
            TokenKind::Comma => TokenKindView::Comma,
            TokenKind::Semicolon => TokenKindView::Semicolon,
        }
    }
}

impl DeepView for Token {
    type V = TokenView;

    open spec fn deep_view(&self) -> TokenView {
        TokenView {
            line: self.line as nat,
            column: self.column as nat,
            kind: self.kind.deep_view(),
        }
    }
}

impl Token {
    /// Builds a token from its position and kind.
    pub fn new(line: usize, column: usize, kind: TokenKind) -> (t: Token)
        ensures
            t.deep_view() == (TokenView {
                line: line as nat,
                column: column as nat,
                kind: kind.deep_view(),
            }),
    {
        Token { line, column, kind }
    }
}

/// The mathematical state of a [`Lexer`]: the input characters and the
/// current reading position.
pub struct LexerModel {
    pub input: Seq<char>,
    pub index: nat,
    pub line: nat,
    pub column: nat,
}

/// The scanner over a fixed sequence of input characters.
#[derive(Debug)]
pub struct Lexer {
    input: Vec<char>,
    index: usize,
    line: usize,
    column: usize,
}

impl View for Lexer {
    type V = LexerModel;

    closed spec fn view(&self) -> LexerModel {
        LexerModel {
            input: self.input@,
            index: self.index as nat,
            line: self.line as nat,
            column: self.column as nat,
        }
    }
}

/// The model one character further on, on the same line.
pub open spec fn spec_advance(m: LexerModel) -> LexerModel {
    LexerModel { index: m.index + 1, column: m.column + 1, ..m }
}

/// True when the whole input has been read.
pub open spec fn spec_at_end(m: LexerModel) -> bool {
    m.index >= m.input.len()
}

/// The state after skipping every whitespace character before the next
/// token, counting lines and columns as it goes.
pub open spec fn spec_skip_whitespace(m: LexerModel) -> LexerModel
    decreases m.input.len() - m.index,
{
    if m.index < m.input.len() && is_whitespace_char(m.input[m.index as int]) {
        if m.input[m.index as int] == '\n' {
            spec_skip_whitespace(LexerModel { index: m.index + 1, line: m.line + 1, column: 0, ..m })
        } else {
            spec_skip_whitespace(spec_advance(m))
        }
    } else {
        m
    }
}

/// The identifier characters readable from the current position, and the
/// state after reading them.
pub open spec fn spec_scan_identifier(m: LexerModel) -> (Seq<char>, LexerModel)
    decreases m.input.len() - m.index,
{
    if m.index < m.input.len() && is_ident_char(m.input[m.index as int]) {
        let r = spec_scan_identifier(spec_advance(m));
        (seq![m.input[m.index as int]] + r.0, r.1)
    } else {
        (Seq::empty(), m)
    }
}

/// The literal's characters up to (not including) the closing quote, and
/// the state after the closing quote — or after the whole input, when the
/// literal is never closed.
pub open spec fn spec_scan_string(m: LexerModel, quote: char) -> (Seq<char>, LexerModel)
    decreases m.input.len() - m.index,
{
    if m.index < m.input.len() {
        if m.input[m.index as int] == quote {
            (Seq::empty(), spec_advance(m))
        } else {
            let r = spec_scan_string(spec_advance(m), quote);
            (seq![m.input[m.index as int]] + r.0, r.1)
        }
    } else {
        (Seq::empty(), m)
    }
}

/// The token kind an identifier's text resolves to: a keyword for the two
/// reserved words, otherwise the identifier itself.
pub open spec fn spec_ident_kind(value: Seq<char>) -> TokenKindView {
    if value == "func"@ {
        TokenKindView::Keyword(Keyword::Func)
    } else if value == "impure"@ {
        TokenKindView::Keyword(Keyword::Impure)
    } else {
        TokenKindView::Identifier(value)
    }
}

/// What one call of `next_token` does: the state afterwards, and the token
/// scanned (`Ok(None)` at the end of input, an error on a character that can
/// start no token).
pub open spec fn spec_next_token(m: LexerModel) -> (LexerModel, Result<
    Option<TokenView>,
    SyntaxErrorView,
>) {
    let m1 = spec_skip_whitespace(m);
    if spec_at_end(m1) {
        (m1, Ok(None))
    } else {
        let c = m1.input[m1.index as int];
        if is_ident_start_char(c) {
            let r = spec_scan_identifier(m1);
            (
                r.1,
                Ok(
                    Some(
                        TokenView { line: m1.line, column: m1.column, kind: spec_ident_kind(r.0) },
                    ),
                ),
            )
        } else if c == '"' || c == '\'' {
            let r = spec_scan_string(spec_advance(m1), c);
            (
                r.1,
                Ok(
                    Some(
                        TokenView {
                            line: m1.line,
                            column: m1.column,
                            kind: TokenKindView::StringLiteral(r.0),
                        },
                    ),
                ),
            )
        } else if c == '(' {
            (spec_advance(m1), Ok(Some(spec_single_token(m1, TokenKindView::OpenParen))))
        } else if c == ')' {
            (spec_advance(m1), Ok(Some(spec_single_token(m1, TokenKindView::CloseParen))))
        } else if c == '{' {
            (spec_advance(m1), Ok(Some(spec_single_token(m1, TokenKindView::OpenCurly))))
        } else if c == '}' {
            (spec_advance(m1), Ok(Some(spec_single_token(m1, TokenKindView::CloseCurly))))
        } else if c == ',' {
            (spec_advance(m1), Ok(Some(spec_single_token(m1, TokenKindView::Comma))))
        } else if c == ';' {
            (spec_advance(m1), Ok(Some(spec_single_token(m1, TokenKindView::Semicolon))))
        } else {
            (
                m1,
                Err(
                    SyntaxErrorView::UnknownStartOfToken(
                        ErrorLocationView { line: m1.line, column: m1.column },
                        c,
                    ),
                ),
            )
        }
    }
}

/// A one-character token starting at the current position.
pub open spec fn spec_single_token(m: LexerModel, kind: TokenKindView) -> TokenView {
    TokenView { line: m.line, column: m.column, kind }
}

/// What `peek_second_token` sees: the token after the next one, with the
/// state left unchanged.
pub open spec fn spec_peek_second_token(m: LexerModel) -> Result<
    Option<TokenView>,
    SyntaxErrorView,
> {
    let r1 = spec_next_token(m);
    match r1.1 {
        Err(e) => Err(e),
        Ok(_) => spec_next_token(r1.0).1,
    }
}

/// Skipping whitespace keeps the input and never moves backwards or past
/// the end.
pub proof fn lemma_spec_skip_whitespace(m: LexerModel)
    ensures
        spec_skip_whitespace(m).input == m.input,
        spec_skip_whitespace(m).index >= m.index,
        m.index <= m.input.len() ==> spec_skip_whitespace(m).index <= m.input.len(),
    decreases m.input.len() - m.index,
{
    if m.index < m.input.len() && is_whitespace_char(m.input[m.index as int]) {
        if m.input[m.index as int] == '\n' {
            lemma_spec_skip_whitespace(
                LexerModel { index: m.index + 1, line: m.line + 1, column: 0, ..m },
            );
        } else {
            lemma_spec_skip_whitespace(spec_advance(m));
        }
    }
}

/// Scanning an identifier keeps the input and never moves backwards or past
/// the end.
pub proof fn lemma_spec_scan_identifier(m: LexerModel)
    ensures
        spec_scan_identifier(m).1.input == m.input,
        spec_scan_identifier(m).1.index >= m.index,
        m.index <= m.input.len() ==> spec_scan_identifier(m).1.index <= m.input.len(),
    decreases m.input.len() - m.index,
{
    if m.index < m.input.len() && is_ident_char(m.input[m.index as int]) {
        lemma_spec_scan_identifier(spec_advance(m));
    }
}

/// Scanning a string literal keeps the input and never moves backwards or
/// past the end.
pub proof fn lemma_spec_scan_string(m: LexerModel, quote: char)
    ensures
        spec_scan_string(m, quote).1.input == m.input,
        spec_scan_string(m, quote).1.index >= m.index,
        m.index <= m.input.len() ==> spec_scan_string(m, quote).1.index <= m.input.len(),
    decreases m.input.len() - m.index,
{
    if m.index < m.input.len() && m.input[m.index as int] != quote {
        lemma_spec_scan_string(spec_advance(m), quote);
    }
}

/// Scanning a token keeps the input, never moves backwards or past the end,
/// and moves strictly forwards whenever it yields a token.
pub proof fn lemma_spec_next_token(m: LexerModel)
    ensures
        spec_next_token(m).0.input == m.input,
        spec_next_token(m).0.index >= m.index,
        m.index <= m.input.len() ==> spec_next_token(m).0.index <= m.input.len(),
        spec_next_token(m).1 matches Ok(t) && t is Some ==> spec_next_token(m).0.index > m.index
            && spec_next_token(m).0.index <= m.input.len(),
{
    lemma_spec_skip_whitespace(m);
    let m1 = spec_skip_whitespace(m);
    if !spec_at_end(m1) {
        let c = m1.input[m1.index as int];
        if is_ident_start_char(c) {
            lemma_spec_scan_identifier(m1);
            assert(spec_scan_identifier(m1).1.index > m1.index) by {
                lemma_spec_scan_identifier(spec_advance(m1));
            }
        } else if c == '"' || c == '\'' {
            lemma_spec_scan_string(spec_advance(m1), c);
        }
    }
}

/// The mathematical value of a token scan's outcome.
pub open spec fn token_result_view(r: Result<Option<Token>, SyntaxError>) -> Result<
    Option<TokenView>,
    SyntaxErrorView,
> {
    match r {
        Ok(None) => Ok(None),
        Ok(Some(t)) => Ok(Some(t.deep_view())),
        Err(e) => Err(e.deep_view()),
    }
}

impl Lexer {
    /// The line and column counters never outrun the reading position,
    /// which keeps them from overflowing.
    pub closed spec fn counters_ok(&self) -> bool {
        self.column <= self.index && self.line <= self.index
    }

    /// Bounds tying the reading position to the input.
    pub open spec fn wf(&self) -> bool {
        self.counters_ok() && self@.index <= self@.input.len()
    }

    /// Builds a scanner positioned at the start of the given source text.
    pub fn new(input: &str) -> (l: Lexer)
        ensures
            l.wf(),
            l@ == (LexerModel { input: input@, index: 0, line: 0, column: 0 }),
    {
        Lexer { input: chars_vec(input), index: 0, line: 0, column: 0 }
    }

    #[inline(always)]
    fn at_end(&self) -> (b: bool)
        ensures
            b == spec_at_end(self@),
    {
        self.index >= self.input.len()
    }

    fn advance(&mut self)
        requires
            old(self).wf(),
            !spec_at_end(old(self)@),
        ensures
            final(self).wf(),
            final(self)@ == spec_advance(old(self)@),
    {
        proof {
            assert(self.index < self.input.len());
        }
        self.index += 1;
        self.column += 1;
    }

    #[inline(always)]
    fn skip_whitespace(&mut self)
        requires
            old(self).wf(),
        ensures
            final(self).wf(),
            final(self)@ == spec_skip_whitespace(old(self)@),
    {
        while !(self.index >= self.input.len()) && char_is_whitespace(self.input[self.index])
            invariant
                self.wf(),
                spec_skip_whitespace(self@) == spec_skip_whitespace(old(self)@),
            decreases self.input.len() - self.index,
        {
            if self.input[self.index] == '\n' {
                self.line += 1;
                self.column = 0;
            } else {
                self.column += 1;
            }
            self.index += 1;
        }
    }

    #[inline(always)]
    fn tokenize_single_char(&mut self, kind: TokenKind) -> (t: Option<Token>)
        requires
            old(self).wf(),
            !spec_at_end(old(self)@),
        ensures
            final(self).wf(),
            final(self)@ == spec_advance(old(self)@),
            t matches Some(tok) && tok.deep_view() == spec_single_token(
                old(self)@,
                kind.deep_view(),
            ),
    {
        let token = Token::new(self.line, self.column, kind);
        self.advance();
        Some(token)
    }

    /// Scans the next token without moving past it.
    pub fn peek_token(&mut self) -> (r: Result<Option<Token>, SyntaxError>)
        requires
            old(self).wf(),
        ensures
            final(self).wf(),
            final(self)@ == old(self)@,
            token_result_view(r) == spec_next_token(old(self)@).1,
    {
        let index = self.index;
        let line = self.line;
        let column = self.column;
        proof {
            lemma_spec_next_token(self@);
        }
        let token = self.next_token();
        self.index = index;
        self.line = line;
        self.column = column;
        proof {
            assert(self@ =~= old(self)@);
        }
        token
    }

    /// Scans the token after the next one without moving past either.
    pub fn peek_second_token(&mut self) -> (r: Result<Option<Token>, SyntaxError>)
        requires
            old(self).wf(),
        ensures
            final(self).wf(),
            final(self)@ == old(self)@,
            token_result_view(r) == spec_peek_second_token(old(self)@),
    {
        let index = self.index;
        let line = self.line;
        let column = self.column;
        proof {
            lemma_spec_next_token(self@);
        }
        let first = self.next_token();
        proof {
            lemma_spec_next_token(self@);
        }
        let token = match first {
            Ok(_) => self.next_token(),
            Err(e) => Err(e),
        };
        self.index = index;
        self.line = line;
        self.column = column;
        proof {
            assert(self@ =~= old(self)@);
        }
        token
    }

    /// Scans the next token and moves past it. `Ok(None)` means the input is
    /// exhausted; an error names a character that can start no token.
    pub fn next_token(&mut self) -> (r: Result<Option<Token>, SyntaxError>)
        requires
            old(self).wf(),
        ensures
            final(self).wf(),
            final(self)@ == spec_next_token(old(self)@).0,
            token_result_view(r) == spec_next_token(old(self)@).1,
    {
        self.skip_whitespace();

        if self.at_end() {
            return Ok(None);
        }

        let c = self.input[self.index];

        if char_is_ident_start(c) {
            let line = self.line;
            let column = self.column;
            let ghost m1 = self@;
            let mut value = String::new();
            while !(self.index >= self.input.len()) && char_is_ident(self.input[self.index])
                invariant
                    self.wf(),
                    self@.input == m1.input,
                    self@.line == m1.line,
                    spec_scan_identifier(self@).1 == spec_scan_identifier(m1).1,
                    value@ + spec_scan_identifier(self@).0 == spec_scan_identifier(m1).0,
                decreases self.input.len() - self.index,
            {
                push_char(&mut value, self.input[self.index]);
                self.advance();
            }
            proof {
                assert(value@ + spec_scan_identifier(self@).0 == value@);
                assert(value@ + Seq::<char>::empty() =~= value@);
            }
            let func_kw = "func".to_owned();
            let impure_kw = "impure".to_owned();
            let kind = if value == func_kw {
                TokenKind::Keyword(Keyword::Func)
            } else if value == impure_kw {
                TokenKind::Keyword(Keyword::Impure)
            } else {
                TokenKind::Identifier(value)
            };
            return Ok(Some(Token::new(line, column, kind)));
        }

        if c == '"' || c == '\'' {
            let line = self.line;
            let column = self.column;
            let mut value = String::new();
            self.advance();
            let ghost m2 = self@;
            while !(self.index >= self.input.len()) && self.input[self.index] != c
                invariant
                    self.wf(),
                    self@.input == m2.input,
                    spec_scan_string(self@, c).1 == spec_scan_string(m2, c).1,
                    value@ + spec_scan_string(self@, c).0 == spec_scan_string(m2, c).0,
                decreases self.input.len() - self.index,
            {
                push_char(&mut value, self.input[self.index]);
                self.advance();
            }
            proof {
                assert(value@ + Seq::<char>::empty() =~= value@);
            }
            if !self.at_end() {
                self.advance();
            }
            return Ok(Some(Token::new(line, column, TokenKind::StringLiteral(value))));
        }

        if c == '(' {
            return Ok(self.tokenize_single_char(TokenKind::OpenParen));
        }
        if c == ')' {
            return Ok(self.tokenize_single_char(TokenKind::CloseParen));
        }
        if c == '{' {
            return Ok(self.tokenize_single_char(TokenKind::OpenCurly));
        }
        if c == '}' {
            return Ok(self.tokenize_single_char(TokenKind::CloseCurly));
        }
        if c == ',' {
            return Ok(self.tokenize_single_char(TokenKind::Comma));
        }
        if c == ';' {
            return Ok(self.tokenize_single_char(TokenKind::Semicolon));
        }

        Err(
            SyntaxError::UnknownStartOfToken(
                ErrorLocation { line: self.line, column: self.column },
                c,
            ),
        )
    }
}

} // verus!
