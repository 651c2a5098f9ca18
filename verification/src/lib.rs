//! A compiler front end for Go source text: a lexer that turns source text
//! into classified, positioned tokens, and a recursive-descent parser that
//! builds an abstract syntax tree rooted at a [`ast::SourceFile`].
//!
//! The pipeline is: source text -> lexer (token sequence) -> parser -> AST.
//! Both stages are pure in-memory transforms: they read no files and keep no
//! global state, and both report the first failure as a positioned error value
//! instead of panicking.

use vstd::prelude::*;

pub mod pos;
pub mod token;
pub mod lexer;
pub mod ast;
pub mod parser;

pub use pos::Position;
pub use parser::Parser;

verus! {

/// A front-end failure: the lexer's, or the parser's.
#[derive(Debug, PartialEq, Eq)]
pub enum Error {
    Lex(lexer::LexError),
    Parse(parser::ParseError),
}

/// The syntax error points into the source text: the token it reports is one
/// of the text's tokens and the error's position is that token's true
/// position; an error at end of input carries the position just past the
/// text.
pub open spec fn parse_error_positioned(s: Seq<char>, e: parser::ParseError) -> bool {
    match e.found {
        Some(t) => match lexer::spec_tokenize(s, 0) {
            Ok(sts) => exists|q: int|
                0 <= q < sts.len() && t.kind@ == (#[trigger] sts[q]).0 && pos::pos_matches(
                    s,
                    sts[q].1,
                    e.pos,
                ),
            Err(_) => false,
        },
        None => pos::pos_matches(s, s.len() as int, e.pos),
    }
}

/// An error of a parser built over the tokens of `src` points into `src`:
/// the parser's stream preserves the tokens' kinds and true positions, so an
/// error naming a stream token names a source token.
pub(crate) proof fn lemma_parse_error_positioned(
    src: Seq<char>,
    toks: Seq<token::Token>,
    p: parser::Parser,
    e: parser::ParseError,
)
    requires
        lexer::spec_tokenize(src, 0) is Ok,
        lexer::toks_match(src, lexer::spec_tokenize(src, 0)->Ok_0, toks),
        forall|m: int|
            0 <= m < p.toks@.len() ==> exists|m0: int|
                0 <= m0 < toks.len() && (#[trigger] p.toks@[m]).kind@ == toks[m0].kind@
                    && p.toks@[m].pos == toks[m0].pos,
        pos::pos_matches(src, src.len() as int, p.eof),
        p.err_in_stream(e),
    ensures
        parse_error_positioned(src, e),
{
    let sts = lexer::spec_tokenize(src, 0)->Ok_0;
    match e.found {
        Some(t) => {
            let m = choose|m: int|
                0 <= m < p.toks@.len() && t.kind@ == (#[trigger] p.toks@[m]).kind@ && e.pos
                    == p.toks@[m].pos;
            let m0 = choose|m0: int|
                0 <= m0 < toks.len() && p.toks@[m].kind@ == toks[m0].kind@ && p.toks@[m].pos
                    == toks[m0].pos;
            assert(toks[m0].kind@ == sts[m0].0);
            assert(pos::pos_matches(src, sts[m0].1, toks[m0].pos));
            assert(t.kind@ == sts[m0].0);
            assert(pos::pos_matches(src, sts[m0].1, e.pos));
            assert(parse_error_positioned(src, e));
        },
        None => {},
    }
}

/// Parse one Go source file's text: the full pipeline, lexing then parsing.
///
/// The lexical layer is exact: the function fails with `Error::Lex` if and
/// only if the specification-level tokenizer fails, with the same error kind
/// at the same position (so an unterminated string literal is reported at its
/// opening quote). On success the tree spells exactly the whitespace-filtered
/// token stream under the grammar relations, which pin expression grouping to
/// the five-level precedence table; a file made of the package clause and any
/// run of import declarations always parses, and a syntax error names one of
/// the source's tokens at its true position.
pub fn parse(src: &str) -> (r: Result<ast::SourceFile, Error>)
    ensures
        match r {
            Ok(f) => lexer::spec_tokenize(src@, 0) is Ok && parser::file_match(
                f,
                parser::strip_ws(lexer::token_kinds(lexer::spec_tokenize(src@, 0)->Ok_0)),
            ),
            Err(Error::Lex(e)) => match lexer::spec_tokenize(src@, 0) {
                Ok(_) => false,
                Err((k, i)) => e.kind == k && pos::pos_matches(src@, i, e.pos),
            },
            Err(Error::Parse(e)) => lexer::spec_tokenize(src@, 0) is Ok
                && parse_error_positioned(src@, e),
        },
        (lexer::spec_tokenize(src@, 0) is Ok && {
            let ts = parser::strip_ws(lexer::token_kinds(lexer::spec_tokenize(src@, 0)->Ok_0));
            ts.len() >= 2 && ts[0] == token::TokView::Keyword(token::Keyword::Package)
                && ts[1] is Ident && parser::import_stream(ts, 2)
        }) ==> r is Ok,
{
    let toks = match lexer::tokenize(src) {
        Ok(t) => t,
        Err(e) => {
            return Err(Error::Lex(e));
        },
    };
    proof {
        let sts = lexer::spec_tokenize(src@, 0)->Ok_0;
        assert(parser::views_of(toks@) =~= lexer::token_kinds(sts));
    }
    let eof = lexer::end_position(src);
    let p = parser::Parser::new(toks, eof);
    match p.parse_source_file() {
        Ok(f) => Ok(f),
        Err(e) => {
            proof {
                lemma_parse_error_positioned(src@, toks@, p, e);
            }
            Err(Error::Parse(e))
        },
    }
}

} // verus!
