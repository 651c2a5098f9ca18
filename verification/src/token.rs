//! The token model: the closed set of lexical categories, each token carrying
//! the source position of its first character.
//!
//! Tokens with a text payload (`Ident`, `Literal`) own their text, so a token
//! stream outlives the source buffer it was read from.

use vstd::prelude::*;
use crate::pos::Position;

verus! {

/// A delimiter shape, used by both the opening and the closing token.
#[derive(Debug, Clone, Copy, PartialEq, Eq, Structural)]
pub enum DelimToken {
    Paren,
    Bracket,
    Brace,
}

/// The 25 reserved Go words.
#[derive(Debug, Clone, Copy, PartialEq, Eq, Structural)]
pub enum Keyword {
    Break,
    Case,
    Chan,
    Const,
    Continue,
    Default,
    Defer,
    Else,
    Fallthrough,
    For,
    Func,
    Go,
    Goto,
    If,
    Import,
    Interface,
    MapKw,
    Package,
    Range,
    Return,
    Select,
    Struct,
    Switch,
    Type,
    Var,
}

/// A literal: the raw source text of the literal's body, uninterpreted
/// (escape sequences are not decoded at this layer).
#[derive(Debug, Clone, PartialEq, Eq)]
pub enum Literal {
    /// A string literal; the payload is the text between the quotes.
    Str(String),
    /// An integer literal; the payload is the digit run.
    Int(String),
}

/// The kind of a token: which lexical category it belongs to, with the text
/// payload for identifiers and literals.
#[derive(Debug, Clone, PartialEq, Eq)]
pub enum TokenKind {
    OpenDelim(DelimToken),
    CloseDelim(DelimToken),
    Comma,
    Dot,
    Semicolon,
    Colon,
    ColonEquals,
    Plus,
    Increment,
    PlusEquals,
    Minus,
    Decrement,
    MinusEquals,
    Star,
    StarEquals,
    Slash,
    SlashEquals,
    Percent,
    PercentEquals,
    Amp,
    AmpAmp,
    AmpEquals,
    AmpCaret,
    Pipe,
    PipePipe,
    PipeEquals,
    Caret,
    CaretEquals,
    Lt,
    LtEquals,
    Shl,
    LeftArrow,
    Gt,
    GtEquals,
    Shr,
    Equals,
    EqualsEquals,
    Not,
    NotEquals,
    Keyword(Keyword),
    Ident(String),
    Literal(Literal),
    Whitespace,
}

/// A token: its kind and the position of its first character.
#[derive(Debug, Clone, PartialEq, Eq)]
pub struct Token {
    pub kind: TokenKind,
    pub pos: Position,
}

/// The mathematical value of a literal: the payload as a character sequence.
pub enum LitView {
    Str(Seq<char>),
    Int(Seq<char>),
}

/// The mathematical value of a token kind: identical to [`TokenKind`], with
/// owned strings replaced by character sequences. Contracts and the
/// specification-level tokenizer speak of these.
pub enum TokView {
    OpenDelim(DelimToken),
    CloseDelim(DelimToken),
    Comma,
    Dot,
    Semicolon,
    Colon,
    ColonEquals,
    Plus,
    Increment,
    PlusEquals,
    Minus,
    Decrement,
    MinusEquals,
    Star,
    StarEquals,
    Slash,
    SlashEquals,
    Percent,
    PercentEquals,
    Amp,
    AmpAmp,
    AmpEquals,
    AmpCaret,
    Pipe,
    PipePipe,
    PipeEquals,
    Caret,
    CaretEquals,
    Lt,
    LtEquals,
    Shl,
    LeftArrow,
    Gt,
    GtEquals,
    Shr,
    Equals,
    EqualsEquals,
    Not,
    NotEquals,
    Keyword(Keyword),
    Ident(Seq<char>),
    Literal(LitView),
    Whitespace,
}

impl View for TokenKind {
    type V = TokView;

    open spec fn view(&self) -> TokView {
        match self {
            TokenKind::OpenDelim(d) => TokView::OpenDelim(*d),
            TokenKind::CloseDelim(d) => TokView::CloseDelim(*d),
            TokenKind::Comma => TokView::Comma,
            TokenKind::Dot => TokView::Dot,
            TokenKind::Semicolon => TokView::Semicolon,
            TokenKind::Colon => TokView::Colon,
            TokenKind::ColonEquals => TokView::ColonEquals,
            TokenKind::Plus => TokView::Plus,
            TokenKind::Increment => TokView::Increment,
            TokenKind::PlusEquals => TokView::PlusEquals,
            TokenKind::Minus => TokView::Minus,
            TokenKind::Decrement => TokView::Decrement,
            TokenKind::MinusEquals => TokView::MinusEquals,
            TokenKind::Star => TokView::Star,
            TokenKind::StarEquals => TokView::StarEquals,
            TokenKind::Slash => TokView::Slash,
            TokenKind::SlashEquals => TokView::SlashEquals,
            TokenKind::Percent => TokView::Percent,
            TokenKind::PercentEquals => TokView::PercentEquals,
            TokenKind::Amp => TokView::Amp,
            TokenKind::AmpAmp => TokView::AmpAmp,
            TokenKind::AmpEquals => TokView::AmpEquals,
            TokenKind::AmpCaret => TokView::AmpCaret,
            TokenKind::Pipe => TokView::Pipe,
            TokenKind::PipePipe => TokView::PipePipe,
            TokenKind::PipeEquals => TokView::PipeEquals,
            TokenKind::Caret => TokView::Caret,
            TokenKind::CaretEquals => TokView::CaretEquals,
            TokenKind::Lt => TokView::Lt,
            TokenKind::LtEquals => TokView::LtEquals,
            TokenKind::Shl => TokView::Shl,
            TokenKind::LeftArrow => TokView::LeftArrow,
            TokenKind::Gt => TokView::Gt,
            TokenKind::GtEquals => TokView::GtEquals,
            TokenKind::Shr => TokView::Shr,
            TokenKind::Equals => TokView::Equals,
            TokenKind::EqualsEquals => TokView::EqualsEquals,
            TokenKind::Not => TokView::Not,
            TokenKind::NotEquals => TokView::NotEquals,
            TokenKind::Keyword(k) => TokView::Keyword(*k),
            TokenKind::Ident(s) => TokView::Ident(s@),
            TokenKind::Literal(Literal::Str(s)) => TokView::Literal(LitView::Str(s@)),
            TokenKind::Literal(Literal::Int(s)) => TokView::Literal(LitView::Int(s@)),
            TokenKind::Whitespace => TokView::Whitespace,
        }
    }
}

} // verus!
