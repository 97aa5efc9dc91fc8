//! The abstract syntax tree handed to the IR builder: an ordered list of
//! function definitions whose bodies are statements wrapping expressions.
//! The recursive-descent parser that produces it lives here as well.

use vstd::prelude::*;

use crate::error::{SyntaxError, SyntaxErrorView};
use crate::lexer::{spec_next_token, spec_peek_second_token, Keyword, Lexer, LexerModel, Token,
    TokenKind, TokenKindView, TokenView};

verus! {

/// A fault found while building the syntax tree from the token stream.
#[derive(Debug)]
pub enum ParseError {
    /// The scanner met a character that can start no token.
    Syntax(SyntaxError),
    /// The input ended where the grammar still required a token.
    UnexpectedEndOfInput,
    /// A token that the grammar does not allow at its position.
    UnexpectedToken(Token),
}

/// The mathematical value of a [`ParseError`].
pub enum ParseErrorView {
    Syntax(SyntaxErrorView),
    UnexpectedEndOfInput,
    UnexpectedToken(TokenView),
}

impl DeepView for ParseError {
    type V = ParseErrorView;

    open spec fn deep_view(&self) -> ParseErrorView {
        match self {
            ParseError::Syntax(e) => ParseErrorView::Syntax(e.deep_view()),
            ParseError::UnexpectedEndOfInput => ParseErrorView::UnexpectedEndOfInput,
            ParseError::UnexpectedToken(t) => ParseErrorView::UnexpectedToken(t.deep_view()),
        }
    }
}

/// An expression: either a call of a named function with argument
/// expressions, or a string literal.
pub enum Expr {
    FunctionCall { name: String, arguments: Vec<Expr> },
    StringLiteral(String),
}

/// A statement wraps one expression.
pub enum Statement {
    Expr(Expr),
}

/// A top-level node: only function definitions exist at the top level.
pub enum Node {
    FunctionDefinition { name: String, contents: Block, impure: bool },
}

/// A parsed program: the function definitions in source order.
pub type Program = Vec<Node>;

/// A function body: its statements in source order.
pub type Block = Vec<Statement>;

/// The mathematical value of an [`Expr`], with strings as character sequences.
pub enum ExprView {
    FunctionCall { name: Seq<char>, arguments: Seq<ExprView> },
    StringLiteral(Seq<char>),
}

/// The mathematical value of a [`Statement`].
pub enum StatementView {
    Expr(ExprView),
}

/// The mathematical value of a [`Node`].
pub enum NodeView {
    FunctionDefinition { name: Seq<char>, contents: Seq<StatementView>, impure: bool },
}

/// The mathematical values of a sequence of expressions, element by element.
pub open spec fn deep_view_exprs(es: Seq<Expr>) -> Seq<ExprView>
    decreases es,
{
    if es.len() == 0 {
        Seq::empty()
    } else {
        seq![es[0].deep_view()] + deep_view_exprs(es.drop_first())
    }
}

impl DeepView for Expr {
    type V = ExprView;

    open spec fn deep_view(&self) -> ExprView
        decreases self,
    {
        match self {
            Expr::FunctionCall { name, arguments } => ExprView::FunctionCall {
                name: name@,
                arguments: deep_view_exprs(arguments@),
            },
            Expr::StringLiteral(s) => ExprView::StringLiteral(s@),
        }
    }
}

/// Reading [`deep_view_exprs`] element by element.
pub proof fn lemma_deep_view_exprs(es: Seq<Expr>)
    ensures
        deep_view_exprs(es).len() == es.len(),
        forall|i: int| #![auto] 0 <= i < es.len() ==> deep_view_exprs(es)[i] == es[i].deep_view(),
    decreases es,
{
    if es.len() > 0 {
        lemma_deep_view_exprs(es.drop_first());
        assert(deep_view_exprs(es) == seq![es[0].deep_view()] + deep_view_exprs(es.drop_first()));
        assert forall|i: int| 0 <= i < es.len() implies deep_view_exprs(es)[i]
            == es[i].deep_view() by {
            if i > 0 {
                assert(deep_view_exprs(es)[i] == deep_view_exprs(es.drop_first())[i - 1]);
                assert(es.drop_first()[i - 1] == es[i]);
            }
        }
    }
}

/// Whether two token kinds are the same kind of token, whatever text they
/// carry.
pub open spec fn spec_same_kind(a: TokenKindView, b: TokenKindView) -> bool {
    match (a, b) {
        (TokenKindView::Identifier(_), TokenKindView::Identifier(_)) => true,
        (TokenKindView::Keyword(_), TokenKindView::Keyword(_)) => true,
        (TokenKindView::StringLiteral(_), TokenKindView::StringLiteral(_)) => true,
        (TokenKindView::OpenParen, TokenKindView::OpenParen) => true,
        (TokenKindView::CloseParen, TokenKindView::CloseParen) => true,
        (TokenKindView::OpenCurly, TokenKindView::OpenCurly) => true,
        (TokenKindView::CloseCurly, TokenKindView::CloseCurly) => true,
        (TokenKindView::Comma, TokenKindView::Comma) => true,
        (TokenKindView::Semicolon, TokenKindView::Semicolon) => true,
        _ => false,
    }
}

/// What demanding a token of the given kind does: the token scanned, or a
/// fault when the input ends, the scanner faults, or the kind differs. With
/// `consume` the scanner moves past the token, otherwise it stays put.
pub open spec fn spec_expect_token(m: LexerModel, kind: TokenKindView, consume: bool) -> (Result<
    TokenView,
    ParseErrorView,
>, LexerModel) {
    let r = spec_next_token(m);
    let here = if consume {
        r.0
    } else {
        m
    };
    match r.1 {
        Err(e) => (Err(ParseErrorView::Syntax(e)), here),
        Ok(None) => (Err(ParseErrorView::UnexpectedEndOfInput), here),
        Ok(Some(t)) => if spec_same_kind(t.kind, kind) {
            (Ok(t), here)
        } else {
            (Err(ParseErrorView::UnexpectedToken(t)), here)
        },
    }
}

/// Demanding a token moves forwards at most past it, and past it exactly
/// when it is consumed successfully.
pub proof fn lemma_spec_expect_token(m: LexerModel, kind: TokenKindView, consume: bool)
    ensures
        spec_expect_token(m, kind, consume).1.input == m.input,
        spec_expect_token(m, kind, consume).1.index >= m.index,
        m.index <= m.input.len() ==> spec_expect_token(m, kind, consume).1.index
            <= m.input.len(),
        spec_expect_token(m, kind, consume).0 is Ok && consume ==> spec_expect_token(
            m,
            kind,
            consume,
        ).1.index > m.index && spec_expect_token(m, kind, consume).1.index <= m.input.len(),
{
    crate::lexer::lemma_spec_next_token(m);
}

/// A successfully parsed item always consumes at least one character of
/// input. This guard makes that visible to the termination checker; its
/// fallback arm is never the one taken.
pub open spec fn spec_progress(from: LexerModel, to: LexerModel) -> LexerModel {
    if from.index < to.index && to.index <= to.input.len() && to.input == from.input {
        to
    } else {
        crate::lexer::spec_advance(from)
    }
}

/// What parsing one expression does: a string literal stands for itself; an
/// identifier must be followed by a parenthesised, comma-separated argument
/// list and becomes a call. `Ok(None)` means the input was exhausted.
pub open spec fn spec_parse_expr(m: LexerModel) -> (Result<Option<ExprView>, ParseErrorView>, LexerModel)
    decreases m.input.len() - m.index, 0nat,
{
    let r = spec_next_token(m);
    match r.1 {
        Err(e) => (Err(ParseErrorView::Syntax(e)), r.0),
        Ok(None) => (Ok(None), r.0),
        Ok(Some(t)) => match t.kind {
            TokenKindView::StringLiteral(s) => (Ok(Some(ExprView::StringLiteral(s))), r.0),
            TokenKindView::Identifier(name) => {
                let peek = spec_next_token(r.0);
                match peek.1 {
                    Err(e) => (Err(ParseErrorView::Syntax(e)), r.0),
                    Ok(None) => (Err(ParseErrorView::UnexpectedEndOfInput), r.0),
                    Ok(Some(t2)) => match t2.kind {
                        TokenKindView::OpenParen => {
                            proof {
                                crate::lexer::lemma_spec_next_token(m);
                                crate::lexer::lemma_spec_next_token(r.0);
                            }
                            let m2 = spec_next_token(r.0).0;
                            spec_parse_call_tail(m2, name)
                        },
                        _ => (Err(ParseErrorView::UnexpectedToken(t2)), r.0),
                    },
                }
            },
            _ => (Err(ParseErrorView::UnexpectedToken(t)), r.0),
        },
    }
}

/// The rest of a call expression once its opening parenthesis has been
/// consumed: the argument list, then the closing parenthesis.
pub open spec fn spec_parse_call_tail(m2: LexerModel, name: Seq<char>) -> (Result<
    Option<ExprView>,
    ParseErrorView,
>, LexerModel)
    decreases m2.input.len() - m2.index, 2nat,
{
    let args = spec_parse_args(m2);
    match args.0 {
        Err(e) => (Err(e), args.1),
        Ok(argseq) => {
            let close = spec_expect_token(args.1, TokenKindView::CloseParen, true);
            match close.0 {
                Err(e) => (Err(e), close.1),
                Ok(_) => (
                    Ok(Some(ExprView::FunctionCall { name, arguments: argseq })),
                    close.1,
                ),
            }
        },
    }
}

/// What parsing a call's argument list does, the opening parenthesis
/// already consumed: expressions separated by commas, stopping before the
/// closing parenthesis, which the caller consumes.
pub open spec fn spec_parse_args(m: LexerModel) -> (Result<Seq<ExprView>, ParseErrorView>, LexerModel)
    decreases m.input.len() - m.index, 1nat,
{
    let peek = spec_next_token(m);
    match peek.1 {
        Err(e) => (Err(ParseErrorView::Syntax(e)), m),
        Ok(None) => (Ok(Seq::empty()), m),
        Ok(Some(tk)) => if tk.kind is CloseParen {
            (Ok(Seq::empty()), m)
        } else {
            let e1 = spec_parse_expr(m);
            match e1.0 {
                Err(err) => (Err(err), e1.1),
                Ok(None) => (Err(ParseErrorView::UnexpectedEndOfInput), e1.1),
                Ok(Some(arg)) => {
                    let stc = spec_progress(m, e1.1);
                    let peek2 = spec_next_token(stc);
                    match peek2.1 {
                        Err(e) => (Err(ParseErrorView::Syntax(e)), stc),
                        Ok(None) => (Err(ParseErrorView::UnexpectedEndOfInput), stc),
                        Ok(Some(t2)) => match t2.kind {
                            TokenKindView::CloseParen => (Ok(seq![arg]), stc),
                            TokenKindView::Comma => {
                                proof {
                                    crate::lexer::lemma_spec_next_token(stc);
                                }
                                let m3 = spec_next_token(stc).0;
                                let rest = spec_parse_args(m3);
                                match rest.0 {
                                    Err(e) => (Err(e), rest.1),
                                    Ok(args) => (Ok(seq![arg] + args), rest.1),
                                }
                            },
                            _ => (Err(ParseErrorView::UnexpectedToken(t2)), stc),
                        },
                    }
                },
            }
        },
    }
}

/// What parsing one statement does: only expression statements exist, and
/// only calls may stand as statements.
pub open spec fn spec_parse_statement(m: LexerModel) -> (Result<
    Option<StatementView>,
    ParseErrorView,
>, LexerModel)
    decreases m.input.len() - m.index, 3nat,
{
    let peek = spec_next_token(m);
    match peek.1 {
        Err(e) => (Err(ParseErrorView::Syntax(e)), m),
        Ok(None) => (Ok(None), m),
        Ok(Some(t)) => match t.kind {
            TokenKindView::Identifier(_) => {
                let peek2 = spec_peek_second_token(m);
                match peek2 {
                    Err(e) => (Err(ParseErrorView::Syntax(e)), m),
                    Ok(None) => (Err(ParseErrorView::UnexpectedEndOfInput), m),
                    Ok(Some(t2)) => match t2.kind {
                        TokenKindView::OpenParen => {
                            let e = spec_parse_expr(m);
                            match e.0 {
                                Err(err) => (Err(err), e.1),
                                Ok(None) => (Err(ParseErrorView::UnexpectedEndOfInput), e.1),
                                Ok(Some(expr)) => (Ok(Some(StatementView::Expr(expr))), e.1),
                            }
                        },
                        _ => (Err(ParseErrorView::UnexpectedToken(t2)), m),
                    },
                }
            },
            _ => (Err(ParseErrorView::UnexpectedToken(t)), m),
        },
    }
}

/// What parsing a function body does, the opening brace already consumed:
/// statements each ended by a semicolon, stopping before the closing
/// brace, which the caller consumes.
pub open spec fn spec_parse_block(m: LexerModel) -> (Result<Seq<StatementView>, ParseErrorView>, LexerModel)
    decreases m.input.len() - m.index, 4nat,
{
    let peek = spec_next_token(m);
    match peek.1 {
        Err(e) => (Err(ParseErrorView::Syntax(e)), m),
        Ok(None) => (Ok(Seq::empty()), m),
        Ok(Some(t)) => if t.kind is CloseCurly {
            (Ok(Seq::empty()), m)
        } else {
            let s = spec_parse_statement(m);
            match s.0 {
                Err(e) => (Err(e), s.1),
                Ok(None) => (Err(ParseErrorView::UnexpectedEndOfInput), s.1),
                Ok(Some(stmt)) => {
                    let stc = spec_progress(m, s.1);
                    let semi = spec_expect_token(stc, TokenKindView::Semicolon, true);
                    match semi.0 {
                        Err(e) => (Err(e), semi.1),
                        Ok(_) => {
                            proof {
                                lemma_spec_expect_token(stc, TokenKindView::Semicolon, true);
                            }
                            let rest = spec_parse_block(semi.1);
                            match rest.0 {
                                Err(e) => (Err(e), rest.1),
                                Ok(stmts) => (Ok(seq![stmt] + stmts), rest.1),
                            }
                        },
                    }
                },
            }
        },
    }
}

/// The rest of a definition once its header — `func`, the name, `()` and
/// `{` — has been consumed: the body's statements, the closing brace, and
/// the finished definition.
pub open spec fn spec_parse_node_tail(m5: LexerModel, name_token: TokenView) -> (Result<
    Option<NodeView>,
    ParseErrorView,
>, LexerModel)
    decreases m5.input.len() - m5.index, 5nat,
{
    let blk = spec_parse_block(m5);
    match blk.0 {
        Err(e) => (Err(e), blk.1),
        Ok(stmts) => {
            let close = spec_expect_token(blk.1, TokenKindView::CloseCurly, true);
            match close.0 {
                Err(e) => (Err(e), close.1),
                Ok(_) => match name_token.kind {
                    TokenKindView::Identifier(n) => (
                        Ok(
                            Some(
                                NodeView::FunctionDefinition {
                                    name: n,
                                    contents: stmts,
                                    impure: false,
                                },
                            ),
                        ),
                        close.1,
                    ),
                    _ => (Err(ParseErrorView::UnexpectedToken(name_token)), close.1),
                },
            }
        },
    }
}

/// What parsing one definition does: `impure` marks the definition that
/// follows it; `func`, a name, empty parentheses and a braced body define a
/// function. `Ok(None)` means the input was exhausted.
pub open spec fn spec_parse_node(m: LexerModel) -> (Result<Option<NodeView>, ParseErrorView>, LexerModel)
    decreases m.input.len() - m.index, 5nat,
{
    let peek = spec_next_token(m);
    match peek.1 {
        Err(e) => (Err(ParseErrorView::Syntax(e)), m),
        Ok(None) => (Ok(None), m),
        Ok(Some(t)) => match t.kind {
            TokenKindView::Keyword(Keyword::Impure) => {
                proof {
                    crate::lexer::lemma_spec_next_token(m);
                }
                let m1 = spec_next_token(m).0;
                let n = spec_parse_node(m1);
                match n.0 {
                    Err(e) => (Err(e), n.1),
                    Ok(None) => (Err(ParseErrorView::UnexpectedEndOfInput), n.1),
                    Ok(Some(node)) => match node {
                        NodeView::FunctionDefinition { name, contents, impure: _ } => (
                            Ok(Some(NodeView::FunctionDefinition { name, contents, impure: true })),
                            n.1,
                        ),
                    },
                }
            },
            TokenKindView::Keyword(Keyword::Func) => {
                proof {
                    crate::lexer::lemma_spec_next_token(m);
                }
                let m1 = spec_next_token(m).0;
                let namet = spec_expect_token(m1, TokenKindView::Identifier(Seq::empty()), true);
                match namet.0 {
                    Err(e) => (Err(e), namet.1),
                    Ok(name_token) => {
                        let p1 = spec_expect_token(namet.1, TokenKindView::OpenParen, true);
                        match p1.0 {
                            Err(e) => (Err(e), p1.1),
                            Ok(_) => {
                                let p2 = spec_expect_token(p1.1, TokenKindView::CloseParen, true);
                                match p2.0 {
                                    Err(e) => (Err(e), p2.1),
                                    Ok(_) => {
                                        let p3 = spec_expect_token(
                                            p2.1,
                                            TokenKindView::OpenCurly,
                                            true,
                                        );
                                        match p3.0 {
                                            Err(e) => (Err(e), p3.1),
                                            Ok(_) => {
                                                proof {
                                                    lemma_spec_expect_token(
                                                        m1,
                                                        TokenKindView::Identifier(Seq::empty()),
                                                        true,
                                                    );
                                                    lemma_spec_expect_token(
                                                        namet.1,
                                                        TokenKindView::OpenParen,
                                                        true,
                                                    );
                                                    lemma_spec_expect_token(
                                                        p1.1,
                                                        TokenKindView::CloseParen,
                                                        true,
                                                    );
                                                    lemma_spec_expect_token(
                                                        p2.1,
                                                        TokenKindView::OpenCurly,
                                                        true,
                                                    );
                                                }
                                                spec_parse_node_tail(p3.1, name_token)
                                            },
                                        }
                                    },
                                }
                            },
                        }
                    },
                }
            },
            _ => (Err(ParseErrorView::UnexpectedToken(t)), m),
        },
    }
}

/// What parsing a whole program does: definitions one after the other until
/// the input is exhausted.
pub open spec fn spec_parse_program(m: LexerModel) -> (Result<Seq<NodeView>, ParseErrorView>, LexerModel)
    decreases m.input.len() - m.index, 6nat,
{
    let n = spec_parse_node(m);
    match n.0 {
        Err(e) => (Err(e), n.1),
        Ok(None) => (Ok(Seq::empty()), n.1),
        Ok(Some(node)) => {
            let stc = spec_progress(m, n.1);
            let rest = spec_parse_program(stc);
            match rest.0 {
                Err(e) => (Err(e), rest.1),
                Ok(nodes) => (Ok(seq![node] + nodes), rest.1),
            }
        },
    }
}

impl DeepView for Statement {
    type V = StatementView;

    open spec fn deep_view(&self) -> StatementView {
        match self {
            Statement::Expr(e) => StatementView::Expr(e.deep_view()),
        }
    }
}

impl DeepView for Node {
    type V = NodeView;

    open spec fn deep_view(&self) -> NodeView {
        match self {
            Node::FunctionDefinition { name, contents, impure } => NodeView::FunctionDefinition {
                name: name@,
                contents: contents.deep_view(),
                impure: *impure,
            },
        }
    }
}


/// Parsing an expression keeps the input, never moves backwards or past
/// the end, and moves strictly forwards when it yields an expression.
pub proof fn lemma_spec_parse_expr_extends(m: LexerModel)
    requires
        m.index <= m.input.len(),
    ensures
        spec_parse_expr(m).1.input == m.input,
        spec_parse_expr(m).1.index >= m.index,
        spec_parse_expr(m).1.index <= m.input.len(),
        spec_parse_expr(m).0 matches Ok(o) && o is Some ==> spec_parse_expr(m).1.index > m.index,
    decreases m.input.len() - m.index, 0nat,
{
    crate::lexer::lemma_spec_next_token(m);
    let r = spec_next_token(m);
    match r.1 {
        Err(_) => {},
        Ok(None) => {},
        Ok(Some(t)) => match t.kind {
            TokenKindView::StringLiteral(_) => {},
            TokenKindView::Identifier(name) => {
                crate::lexer::lemma_spec_next_token(r.0);
                let peek = spec_next_token(r.0);
                match peek.1 {
                    Ok(Some(t2)) => {
                        if t2.kind is OpenParen {
                            lemma_spec_parse_call_tail_extends(spec_next_token(r.0).0, name);
                        }
                    },
                    _ => {},
                }
            },
            _ => {},
        },
    }
}

/// The rest of a call keeps the input and moves forwards within bounds.
pub proof fn lemma_spec_parse_call_tail_extends(m2: LexerModel, name: Seq<char>)
    requires
        m2.index <= m2.input.len(),
    ensures
        spec_parse_call_tail(m2, name).1.input == m2.input,
        spec_parse_call_tail(m2, name).1.index >= m2.index,
        spec_parse_call_tail(m2, name).1.index <= m2.input.len(),
    decreases m2.input.len() - m2.index, 2nat,
{
    lemma_spec_parse_args_extends(m2);
    let args = spec_parse_args(m2);
    lemma_spec_expect_token(args.1, TokenKindView::CloseParen, true);
}

/// Parsing an argument list keeps the input and moves forwards within
/// bounds.
pub proof fn lemma_spec_parse_args_extends(m: LexerModel)
    requires
        m.index <= m.input.len(),
    ensures
        spec_parse_args(m).1.input == m.input,
        spec_parse_args(m).1.index >= m.index,
        spec_parse_args(m).1.index <= m.input.len(),
    decreases m.input.len() - m.index, 1nat,
{
    crate::lexer::lemma_spec_next_token(m);
    let peek = spec_next_token(m);
    match peek.1 {
        Err(_) => {},
        Ok(None) => {},
        Ok(Some(tk)) => {
            if !(tk.kind is CloseParen) {
                lemma_spec_parse_expr_extends(m);
                let e1 = spec_parse_expr(m);
                match e1.0 {
                    Err(_) => {},
                    Ok(None) => {},
                    Ok(Some(_)) => {
                        let stc = spec_progress(m, e1.1);
                        crate::lexer::lemma_spec_next_token(stc);
                        let peek2 = spec_next_token(stc);
                        match peek2.1 {
                            Ok(Some(t2)) => {
                                if t2.kind is Comma {
                                    lemma_spec_parse_args_extends(spec_next_token(stc).0);
                                }
                            },
                            _ => {},
                        }
                    },
                }
            }
        },
    }
}

/// Parsing a statement keeps the input, never moves backwards or past the
/// end, and moves strictly forwards when it yields a statement.
pub proof fn lemma_spec_parse_statement_extends(m: LexerModel)
    requires
        m.index <= m.input.len(),
    ensures
        spec_parse_statement(m).1.input == m.input,
        spec_parse_statement(m).1.index >= m.index,
        spec_parse_statement(m).1.index <= m.input.len(),
        spec_parse_statement(m).0 matches Ok(o) && o is Some ==> spec_parse_statement(m).1.index
            > m.index,
    decreases m.input.len() - m.index, 3nat,
{
    crate::lexer::lemma_spec_next_token(m);
    lemma_spec_parse_expr_extends(m);
}

/// Parsing a block keeps the input and moves forwards within bounds.
pub proof fn lemma_spec_parse_block_extends(m: LexerModel)
    requires
        m.index <= m.input.len(),
    ensures
        spec_parse_block(m).1.input == m.input,
        spec_parse_block(m).1.index >= m.index,
        spec_parse_block(m).1.index <= m.input.len(),
    decreases m.input.len() - m.index, 4nat,
{
    crate::lexer::lemma_spec_next_token(m);
    let peek = spec_next_token(m);
    match peek.1 {
        Err(_) => {},
        Ok(None) => {},
        Ok(Some(t)) => {
            if !(t.kind is CloseCurly) {
                lemma_spec_parse_statement_extends(m);
                let s = spec_parse_statement(m);
                match s.0 {
                    Err(_) => {},
                    Ok(None) => {},
                    Ok(Some(_)) => {
                        let stc = spec_progress(m, s.1);
                        lemma_spec_expect_token(stc, TokenKindView::Semicolon, true);
                        let semi = spec_expect_token(stc, TokenKindView::Semicolon, true);
                        if semi.0 is Ok {
                            lemma_spec_parse_block_extends(semi.1);
                        }
                    },
                }
            }
        },
    }
}

/// The rest of a definition keeps the input and moves forwards within
/// bounds.
pub proof fn lemma_spec_parse_node_tail_extends(m5: LexerModel, name_token: TokenView)
    requires
        m5.index <= m5.input.len(),
    ensures
        spec_parse_node_tail(m5, name_token).1.input == m5.input,
        spec_parse_node_tail(m5, name_token).1.index >= m5.index,
        spec_parse_node_tail(m5, name_token).1.index <= m5.input.len(),
    decreases m5.input.len() - m5.index, 5nat,
{
    lemma_spec_parse_block_extends(m5);
    let blk = spec_parse_block(m5);
    lemma_spec_expect_token(blk.1, TokenKindView::CloseCurly, true);
}

/// Parsing a definition keeps the input, never moves backwards or past the
/// end, and moves strictly forwards when it yields a definition.
pub proof fn lemma_spec_parse_node_extends(m: LexerModel)
    requires
        m.index <= m.input.len(),
    ensures
        spec_parse_node(m).1.input == m.input,
        spec_parse_node(m).1.index >= m.index,
        spec_parse_node(m).1.index <= m.input.len(),
        spec_parse_node(m).0 matches Ok(o) && o is Some ==> spec_parse_node(m).1.index > m.index,
    decreases m.input.len() - m.index, 5nat,
{
    crate::lexer::lemma_spec_next_token(m);
    let peek = spec_next_token(m);
    match peek.1 {
        Err(_) => {},
        Ok(None) => {},
        Ok(Some(t)) => match t.kind {
            TokenKindView::Keyword(Keyword::Impure) => {
                lemma_spec_parse_node_extends(spec_next_token(m).0);
            },
            TokenKindView::Keyword(Keyword::Func) => {
                let m1 = spec_next_token(m).0;
                lemma_spec_expect_token(m1, TokenKindView::Identifier(Seq::empty()), true);
                let namet = spec_expect_token(m1, TokenKindView::Identifier(Seq::empty()), true);
                if namet.0 is Ok {
                    lemma_spec_expect_token(namet.1, TokenKindView::OpenParen, true);
                    let p1 = spec_expect_token(namet.1, TokenKindView::OpenParen, true);
                    if p1.0 is Ok {
                        lemma_spec_expect_token(p1.1, TokenKindView::CloseParen, true);
                        let p2 = spec_expect_token(p1.1, TokenKindView::CloseParen, true);
                        if p2.0 is Ok {
                            lemma_spec_expect_token(p2.1, TokenKindView::OpenCurly, true);
                            let p3 = spec_expect_token(p2.1, TokenKindView::OpenCurly, true);
                            if p3.0 is Ok {
                                lemma_spec_parse_node_tail_extends(p3.1, namet.0->Ok_0);
                            }
                        }
                    }
                }
            },
            _ => {},
        },
    }
}

/// Parsing a program keeps the input and moves forwards within bounds.
pub proof fn lemma_spec_parse_program_extends(m: LexerModel)
    requires
        m.index <= m.input.len(),
    ensures
        spec_parse_program(m).1.input == m.input,
        spec_parse_program(m).1.index >= m.index,
        spec_parse_program(m).1.index <= m.input.len(),
    decreases m.input.len() - m.index, 6nat,
{
    lemma_spec_parse_node_extends(m);
    let n = spec_parse_node(m);
    match n.0 {
        Err(_) => {},
        Ok(None) => {},
        Ok(Some(_)) => {
            lemma_spec_parse_program_extends(spec_progress(m, n.1));
        },
    }
}

/// The mathematical value of a demanded token's outcome.
pub open spec fn token_parse_result_view(r: Result<Token, ParseError>) -> Result<
    TokenView,
    ParseErrorView,
> {
    match r {
        Ok(t) => Ok(t.deep_view()),
        Err(e) => Err(e.deep_view()),
    }
}

/// The mathematical value of an expression parse's outcome.
pub open spec fn expr_parse_result_view(r: Result<Option<Expr>, ParseError>) -> Result<
    Option<ExprView>,
    ParseErrorView,
> {
    match r {
        Ok(None) => Ok(None),
        Ok(Some(e)) => Ok(Some(e.deep_view())),
        Err(e) => Err(e.deep_view()),
    }
}

/// The mathematical value of a statement parse's outcome.
pub open spec fn stmt_parse_result_view(r: Result<Option<Statement>, ParseError>) -> Result<
    Option<StatementView>,
    ParseErrorView,
> {
    match r {
        Ok(None) => Ok(None),
        Ok(Some(s)) => Ok(Some(s.deep_view())),
        Err(e) => Err(e.deep_view()),
    }
}

/// The mathematical value of a definition parse's outcome.
pub open spec fn node_parse_result_view(r: Result<Option<Node>, ParseError>) -> Result<
    Option<NodeView>,
    ParseErrorView,
> {
    match r {
        Ok(None) => Ok(None),
        Ok(Some(n)) => Ok(Some(n.deep_view())),
        Err(e) => Err(e.deep_view()),
    }
}

/// The mathematical value of a whole program parse's outcome.
pub open spec fn program_parse_result_view(r: Result<Program, ParseError>) -> Result<
    Seq<NodeView>,
    ParseErrorView,
> {
    match r {
        Ok(p) => Ok(p.deep_view()),
        Err(e) => Err(e.deep_view()),
    }
}

/// An argument list's outcome resumed behind arguments already parsed.
pub open spec fn spec_args_concat(
    acc: Seq<ExprView>,
    r: (Result<Seq<ExprView>, ParseErrorView>, LexerModel),
) -> (Result<Seq<ExprView>, ParseErrorView>, LexerModel) {
    (
        match r.0 {
            Err(e) => Err(e),
            Ok(rest) => Ok(acc + rest),
        },
        r.1,
    )
}

/// A block's outcome resumed behind statements already parsed.
pub open spec fn spec_block_concat(
    acc: Seq<StatementView>,
    r: (Result<Seq<StatementView>, ParseErrorView>, LexerModel),
) -> (Result<Seq<StatementView>, ParseErrorView>, LexerModel) {
    (
        match r.0 {
            Err(e) => Err(e),
            Ok(rest) => Ok(acc + rest),
        },
        r.1,
    )
}

/// A program's outcome resumed behind definitions already parsed.
pub open spec fn spec_program_concat(
    acc: Seq<NodeView>,
    r: (Result<Seq<NodeView>, ParseErrorView>, LexerModel),
) -> (Result<Seq<NodeView>, ParseErrorView>, LexerModel) {
    (
        match r.0 {
            Err(e) => Err(e),
            Ok(rest) => Ok(acc + rest),
        },
        r.1,
    )
}

/// Whether two tokens are the same kind of token, whatever text they carry.
fn kinds_match(a: &TokenKind, b: &TokenKind) -> (r: bool)
    ensures
        r == spec_same_kind(a.deep_view(), b.deep_view()),
{
    match (a, b) {
        (TokenKind::Identifier(_), TokenKind::Identifier(_)) => true,
        (TokenKind::Keyword(_), TokenKind::Keyword(_)) => true,
        (TokenKind::StringLiteral(_), TokenKind::StringLiteral(_)) => true,
        (TokenKind::OpenParen, TokenKind::OpenParen) => true,
        (TokenKind::CloseParen, TokenKind::CloseParen) => true,
        (TokenKind::OpenCurly, TokenKind::OpenCurly) => true,
        (TokenKind::CloseCurly, TokenKind::CloseCurly) => true,
        (TokenKind::Comma, TokenKind::Comma) => true,
        (TokenKind::Semicolon, TokenKind::Semicolon) => true,
        _ => false,
    }
}

/// The recursive-descent parser: builds the syntax tree straight off the
/// scanner's token stream.
#[derive(Debug)]
pub struct Parser {
    lexer: Lexer,
}

impl View for Parser {
    type V = LexerModel;

    closed spec fn view(&self) -> LexerModel {
        self.lexer@
    }
}

impl Parser {
    /// The scanner's internal bounds.
    pub closed spec fn wf(&self) -> bool {
        self.lexer.wf()
    }

    /// Builds a parser positioned at the start of the given source text.
    pub fn new(input: &str) -> (p: Parser)
        ensures
            p.wf(),
            p@ == (LexerModel { input: input@, index: 0, line: 0, column: 0 }),
    {
        Parser { lexer: Lexer::new(input) }
    }

    /// Demands the next token to be of the given kind, as
    /// [`spec_expect_token`] says.
    fn expect_token(&mut self, token: TokenKind, consume: bool) -> (r: Result<Token, ParseError>)
        requires
            old(self).wf(),
        ensures
            final(self).wf(),
            final(self)@ == spec_expect_token(old(self)@, token.deep_view(), consume).1,
            token_parse_result_view(r) == spec_expect_token(
                old(self)@,
                token.deep_view(),
                consume,
            ).0,
    {
        let next = if consume {
            self.lexer.next_token()
        } else {
            self.lexer.peek_token()
        };
        match next {
            Err(e) => Err(ParseError::Syntax(e)),
            Ok(None) => Err(ParseError::UnexpectedEndOfInput),
            Ok(Some(n)) => if kinds_match(&n.kind, &token) {
                Ok(n)
            } else {
                Err(ParseError::UnexpectedToken(n))
            },
        }
    }

    /// Parses one statement, as [`spec_parse_statement`] says.
    fn parse_statement(&mut self) -> (r: Result<Option<Statement>, ParseError>)
        requires
            old(self).wf(),
        ensures
            final(self).wf(),
            final(self)@ == spec_parse_statement(old(self)@).1,
            stmt_parse_result_view(r) == spec_parse_statement(old(self)@).0,
        decreases self@.input.len() - self@.index, 3int,
    {
        proof {
            crate::lexer::lemma_spec_next_token(self@);
        }
        let peeked = self.lexer.peek_token();
        match peeked {
            Err(e) => Err(ParseError::Syntax(e)),
            Ok(None) => Ok(None),
            Ok(Some(token)) => {
                match token.kind {
                    TokenKind::Identifier(_) => {
                        let second = self.lexer.peek_second_token();
                        match second {
                            Err(e) => Err(ParseError::Syntax(e)),
                            Ok(None) => Err(ParseError::UnexpectedEndOfInput),
                            Ok(Some(t2)) => {
                                match t2.kind {
                                    TokenKind::OpenParen => {
                                        match self.parse_expr() {
                                            Err(e) => Err(e),
                                            Ok(None) => Err(ParseError::UnexpectedEndOfInput),
                                            Ok(Some(expr)) => Ok(Some(Statement::Expr(expr))),
                                        }
                                    },
                                    _ => Err(ParseError::UnexpectedToken(t2)),
                                }
                            },
                        }
                    },
                    _ => Err(ParseError::UnexpectedToken(token)),
                }
            },
        }
    }

    /// Parses one expression, as [`spec_parse_expr`] says.
    fn parse_expr(&mut self) -> (r: Result<Option<Expr>, ParseError>)
        requires
            old(self).wf(),
        ensures
            final(self).wf(),
            final(self)@ == spec_parse_expr(old(self)@).1,
            expr_parse_result_view(r) == spec_parse_expr(old(self)@).0,
        decreases self@.input.len() - self@.index, 0int,
    {
        let ghost m0 = self@;
        proof {
            crate::lexer::lemma_spec_next_token(m0);
        }
        let first = self.lexer.next_token();
        match first {
            Err(e) => Err(ParseError::Syntax(e)),
            Ok(None) => Ok(None),
            Ok(Some(token)) => {
                match token.kind {
                    TokenKind::StringLiteral(s) => Ok(Some(Expr::StringLiteral(s))),
                    TokenKind::Identifier(s) => {
                        let ghost r0 = self@;
                        proof {
                            crate::lexer::lemma_spec_next_token(r0);
                        }
                        let peeked = self.lexer.peek_token();
                        match peeked {
                            Err(e) => Err(ParseError::Syntax(e)),
                            Ok(None) => Err(ParseError::UnexpectedEndOfInput),
                            Ok(Some(peeked_token)) => {
                                match peeked_token.kind {
                                    TokenKind::OpenParen => {
                                        let open = self.lexer.next_token();
                                        proof {
                                            crate::lexer::lemma_spec_next_token(self@);
                                        }
                                        let ghost m2 = self@;
                                        let ghost namev = s@;
                                        let mut args = Vec::<Expr>::new();
                                        let mut done = false;
                                        proof {
                                            assert(args.deep_view() =~= Seq::<ExprView>::empty());
                                        }
                                        while !done
                                            invariant
                                                self.wf(),
                                                m0 == old(self)@,
                                                s@ == namev,
                                                spec_parse_expr(m0) == spec_parse_call_tail(
                                                    m2,
                                                    namev,
                                                ),
                                                m0.input == self@.input,
                                                m0.index <= m0.input.len(),
                                                m0.index < self@.index,
                                                self@.index <= self@.input.len(),
                                                !done ==> spec_parse_args(m2) == spec_args_concat(
                                                    args.deep_view(),
                                                    spec_parse_args(self@),
                                                ),
                                                done ==> spec_parse_args(m2) == (
                                                    Ok::<Seq<ExprView>, ParseErrorView>(
                                                        args.deep_view(),
                                                    ),
                                                    self@,
                                                ),
                                            decreases
                                                    self@.input.len() - self@.index,
                                                    (if done {
                                                        0int
                                                    } else {
                                                        1int
                                                    }),
                                        {
                                            let ghost cur = self@;
                                            let ghost accv = args.deep_view();
                                            proof {
                                                crate::lexer::lemma_spec_next_token(cur);
                                            }
                                            let peek_arg = self.lexer.peek_token();
                                            match peek_arg {
                                                Err(e) => {
                                                    return Err(ParseError::Syntax(e));
                                                },
                                                Ok(None) => {
                                                    done = true;
                                                },
                                                Ok(Some(tk)) => {
                                                    match tk.kind {
                                                        TokenKind::CloseParen => {
                                                            done = true;
                                                        },
                                                        _ => {
                                                            let sub = self.parse_expr();
                                                            match sub {
                                                                Err(e) => {
                                                                    proof {
                                                                        assert(spec_parse_args(cur)
                                                                            == (
                                                                            Err::<
                                                                                Seq<ExprView>,
                                                                                ParseErrorView,
                                                                            >(e.deep_view()),
                                                                            self@,
                                                                        ));
                                                                    }
                                                                    return Err(e);
                                                                },
                                                                Ok(None) => {
                                                                    return Err(
                                                                        ParseError::UnexpectedEndOfInput,
                                                                    );
                                                                },
                                                                Ok(Some(argexpr)) => {
                                                                    proof {
                                                                        lemma_spec_parse_expr_extends(
                                                                            cur,
                                                                        );
                                                                        assert(spec_progress(
                                                                            cur,
                                                                            self@,
                                                                        ) == self@);
                                                                    }
                                                                    let ghost argv =
                                                                        argexpr.deep_view();
                                                                    args.push(argexpr);
                                                                    proof {
                                                                        assert(args.deep_view()
                                                                            =~= accv.push(argv));
                                                                        crate::lexer::lemma_spec_next_token(
                                                                            self@,
                                                                        );
                                                                    }
                                                                    let peek_after =
                                                                        self.lexer.peek_token();
                                                                    match peek_after {
                                                                        Err(e) => {
                                                                            return Err(
                                                                                ParseError::Syntax(
                                                                                    e,
                                                                                ),
                                                                            );
                                                                        },
                                                                        Ok(None) => {
                                                                            return Err(
                                                                                ParseError::UnexpectedEndOfInput,
                                                                            );
                                                                        },
                                                                        Ok(Some(t2)) => {
                                                                            match t2.kind {
                                                                                TokenKind::CloseParen => {
                                                                                    proof {
                                                                                        assert(accv.push(
                                                                                            argv,
                                                                                        ) =~= accv
                                                                                            + seq![argv]);
                                                                                    }
                                                                                    done = true;
                                                                                },
                                                                                TokenKind::Comma => {
                                                                                    let _comma =
                                                                                        self.lexer.next_token();
                                                                                    proof {
                                                                                        assert(accv.push(
                                                                                            argv,
                                                                                        ) =~= accv
                                                                                            + seq![argv]);
                                                                                        assert(forall|
                                                                                            x: Seq<
                                                                                                ExprView,
                                                                                            >,
                                                                                        |
                                                                                            (accv
                                                                                                + seq![argv])
                                                                                                + x =~= accv
                                                                                                + (
                                                                                            seq![argv]
                                                                                                + x));
                                                                                    }
                                                                                },
                                                                                _ => {
                                                                                    return Err(
                                                                                        ParseError::UnexpectedToken(
                                                                                            t2,
                                                                                        ),
                                                                                    );
                                                                                },
                                                                            }
                                                                        },
                                                                    }
                                                                },
                                                            }
                                                        },
                                                    }
                                                },
                                            }
                                        }
                                        let close = self.expect_token(TokenKind::CloseParen, true);
                                        match close {
                                            Err(e) => Err(e),
                                            Ok(_) => {
                                                let ghost argsv = args.deep_view();
                                                let result = Expr::FunctionCall {
                                                    name: s,
                                                    arguments: args,
                                                };
                                                proof {
                                                    lemma_deep_view_exprs(
                                                        result->FunctionCall_arguments@,
                                                    );
                                                    assert(deep_view_exprs(
                                                        result->FunctionCall_arguments@,
                                                    ) =~= argsv);
                                                }
                                                Ok(Some(result))
                                            },
                                        }
                                    },
                                    _ => Err(ParseError::UnexpectedToken(peeked_token)),
                                }
                            },
                        }
                    },
                    _ => Err(ParseError::UnexpectedToken(token)),
                }
            },
        }
    }

    /// Parses one definition, as [`spec_parse_node`] says.
    #[verifier::rlimit(60)]
    fn parse_node(&mut self) -> (r: Result<Option<Node>, ParseError>)
        requires
            old(self).wf(),
        ensures
            final(self).wf(),
            final(self)@ == spec_parse_node(old(self)@).1,
            node_parse_result_view(r) == spec_parse_node(old(self)@).0,
        decreases self@.input.len() - self@.index, 5int,
    {
        let ghost m0 = self@;
        proof {
            crate::lexer::lemma_spec_next_token(m0);
        }
        let peeked = self.lexer.peek_token();
        match peeked {
            Err(e) => Err(ParseError::Syntax(e)),
            Ok(None) => Ok(None),
            Ok(Some(token)) => {
                match token.kind {
                    TokenKind::Keyword(Keyword::Impure) => {
                        let _keyword = self.lexer.next_token();
                        match self.parse_node() {
                            Err(e) => Err(e),
                            Ok(None) => Err(ParseError::UnexpectedEndOfInput),
                            Ok(Some(node)) => {
                                match node {
                                    Node::FunctionDefinition { name, contents, impure: _ } => Ok(
                                        Some(
                                            Node::FunctionDefinition {
                                                name,
                                                contents,
                                                impure: true,
                                            },
                                        ),
                                    ),
                                }
                            },
                        }
                    },
                    TokenKind::Keyword(Keyword::Func) => {
                        let _keyword = self.lexer.next_token();
                        let ghost m1 = self@;
                        let name_token = match self.expect_token(
                            TokenKind::Identifier(String::new()),
                            true,
                        ) {
                            Err(e) => {
                                return Err(e);
                            },
                            Ok(t) => t,
                        };
                        let ghost mname = self@;
                        match self.expect_token(TokenKind::OpenParen, true) {
                            Err(e) => {
                                return Err(e);
                            },
                            Ok(_) => {},
                        }
                        let ghost mp1 = self@;
                        match self.expect_token(TokenKind::CloseParen, true) {
                            Err(e) => {
                                return Err(e);
                            },
                            Ok(_) => {},
                        }
                        let ghost mp2 = self@;
                        match self.expect_token(TokenKind::OpenCurly, true) {
                            Err(e) => {
                                return Err(e);
                            },
                            Ok(_) => {},
                        }
                        proof {
                            lemma_spec_expect_token(
                                m1,
                                TokenKindView::Identifier(Seq::empty()),
                                true,
                            );
                            lemma_spec_expect_token(mname, TokenKindView::OpenParen, true);
                            lemma_spec_expect_token(mp1, TokenKindView::CloseParen, true);
                            lemma_spec_expect_token(mp2, TokenKindView::OpenCurly, true);
                        }
                        let ghost m5 = self@;
                        let ghost namtv = name_token.deep_view();
                        let mut block = Vec::<Statement>::new();
                        let mut done = false;
                        proof {
                            assert(block.deep_view() =~= Seq::<StatementView>::empty());
                            let whole = spec_parse_block(m5);
                            if whole.0 is Ok {
                                assert(Seq::<StatementView>::empty() + whole.0->Ok_0
                                    =~= whole.0->Ok_0);
                            }
                        }
                        while !done
                            invariant
                                self.wf(),
                                m0 == old(self)@,
                                name_token.deep_view() == namtv,
                                spec_parse_node(m0) == spec_parse_node_tail(m5, namtv),
                                m5.input == self@.input,
                                m0.index <= m0.input.len(),
                                m0.index < self@.index,
                                self@.index <= self@.input.len(),
                                !done ==> spec_parse_block(m5) == spec_block_concat(
                                    block.deep_view(),
                                    spec_parse_block(self@),
                                ),
                                done ==> spec_parse_block(m5) == (
                                    Ok::<Seq<StatementView>, ParseErrorView>(block.deep_view()),
                                    self@,
                                ),
                            decreases
                                    self@.input.len() - self@.index,
                                    (if done {
                                        0int
                                    } else {
                                        1int
                                    }),
                        {
                            let ghost cur = self@;
                            let ghost accv = block.deep_view();
                            proof {
                                crate::lexer::lemma_spec_next_token(cur);
                            }
                            let pk = self.lexer.peek_token();
                            match pk {
                                Err(e) => {
                                    return Err(ParseError::Syntax(e));
                                },
                                Ok(None) => {
                                    proof {
                                        assert(accv + Seq::<StatementView>::empty() =~= accv);
                                    }
                                    done = true;
                                },
                                Ok(Some(t)) => {
                                    match t.kind {
                                        TokenKind::CloseCurly => {
                                            proof {
                                                assert(accv + Seq::<StatementView>::empty()
                                                    =~= accv);
                                            }
                                            done = true;
                                        },
                                        _ => {
                                            match self.parse_statement() {
                                                Err(e) => {
                                                    return Err(e);
                                                },
                                                Ok(None) => {
                                                    return Err(ParseError::UnexpectedEndOfInput);
                                                },
                                                Ok(Some(stmt)) => {
                                                    proof {
                                                        lemma_spec_parse_statement_extends(cur);
                                                        assert(spec_progress(cur, self@)
                                                            == self@);
                                                    }
                                                    let ghost stmtv = stmt.deep_view();
                                                    let ghost mstmt = self@;
                                                    block.push(stmt);
                                                    proof {
                                                        assert(block.deep_view() =~= accv.push(
                                                            stmtv,
                                                        ));
                                                    }
                                                    match self.expect_token(
                                                        TokenKind::Semicolon,
                                                        true,
                                                    ) {
                                                        Err(e) => {
                                                            return Err(e);
                                                        },
                                                        Ok(_) => {
                                                            proof {
                                                                lemma_spec_expect_token(
                                                                    mstmt,
                                                                    TokenKindView::Semicolon,
                                                                    true,
                                                                );
                                                                let rest = spec_parse_block(
                                                                    self@,
                                                                );
                                                                assert(accv.push(stmtv) =~= accv
                                                                    + seq![stmtv]);
                                                                if rest.0 is Ok {
                                                                    assert((accv + seq![stmtv])
                                                                        + rest.0->Ok_0 =~= accv + (
                                                                    seq![stmtv] + rest.0->Ok_0));
                                                                }
                                                            }
                                                        },
                                                    }
                                                },
                                            }
                                        },
                                    }
                                },
                            }
                        }
                        match self.expect_token(TokenKind::CloseCurly, true) {
                            Err(e) => Err(e),
                            Ok(_) => {
                                match name_token {
                                    Token { line: _, column: _, kind: TokenKind::Identifier(n) } =>

                                        Ok(
                                        Some(
                                            Node::FunctionDefinition {
                                                name: n,
                                                contents: block,
                                                impure: false,
                                            },
                                        ),
                                    ),
                                    other => Err(ParseError::UnexpectedToken(other)),
                                }
                            },
                        }
                    },
                    _ => Err(ParseError::UnexpectedToken(token)),
                }
            },
        }
    }

    /// Parses a whole program: definitions one after the other until the
    /// input is exhausted, as [`spec_parse_program`] says.
    pub fn parse_program(&mut self) -> (r: Result<Program, ParseError>)
        requires
            old(self).wf(),
        ensures
            final(self).wf(),
            final(self)@ == spec_parse_program(old(self)@).1,
            program_parse_result_view(r) == spec_parse_program(old(self)@).0,
    {
        let ghost m0 = self@;
        let mut program = Vec::<Node>::new();
        let mut done = false;
        proof {
            assert(program.deep_view() =~= Seq::<NodeView>::empty());
            let whole = spec_parse_program(m0);
            if whole.0 is Ok {
                assert(Seq::<NodeView>::empty() + whole.0->Ok_0 =~= whole.0->Ok_0);
            }
        }
        while !done
            invariant
                self.wf(),
                m0 == old(self)@,
                m0.index <= m0.input.len(),
                self@.input == m0.input,
                self@.index >= m0.index,
                self@.index <= self@.input.len(),
                !done ==> spec_parse_program(m0) == spec_program_concat(
                    program.deep_view(),
                    spec_parse_program(self@),
                ),
                done ==> spec_parse_program(m0) == (
                    Ok::<Seq<NodeView>, ParseErrorView>(program.deep_view()),
                    self@,
                ),
            decreases
                    self@.input.len() - self@.index,
                    (if done {
                        0int
                    } else {
                        1int
                    }),
        {
            let ghost cur = self@;
            let ghost accv = program.deep_view();
            match self.parse_node() {
                Err(e) => {
                    return Err(e);
                },
                Ok(None) => {
                    proof {
                        assert(accv + Seq::<NodeView>::empty() =~= accv);
                    }
                    done = true;
                },
                Ok(Some(node)) => {
                    proof {
                        lemma_spec_parse_node_extends(cur);
                        assert(spec_progress(cur, self@) == self@);
                    }
                    let ghost nodev = node.deep_view();
                    program.push(node);
                    proof {
                        assert(program.deep_view() =~= accv.push(nodev));
                        let rest = spec_parse_program(self@);
                        assert(accv.push(nodev) =~= accv + seq![nodev]);
                        if rest.0 is Ok {
                            assert((accv + seq![nodev]) + rest.0->Ok_0 =~= accv + (seq![nodev]
                                + rest.0->Ok_0));
                        }
                    }
                },
            }
        }
        Ok(program)
    }
}

} // verus!
