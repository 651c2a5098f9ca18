//! The parser: a recursive-descent engine over the whitespace-filtered token
//! stream, with a precedence-climbing sub-algorithm for binary expressions
//! and a chained primary-expression parser.
//!
//! Contracts are stated against grammar relations over token views: each
//! `X_match(node, ts)` says that `ts` is a token spelling of `node` under the
//! grammar production for `X`. Every parse function guarantees that the node
//! it returns matches exactly the tokens it consumed, and that it consumed at
//! least one token. The parser fails fast on the first unexpected token with
//! an error naming the expected construct, the token found, and its position.
//!
//! Statement terminators are not inferred (no automatic semicolon insertion):
//! top-level units are self-delimiting, and explicit semicolons separate the
//! specs of a grouped import.
//!
//! The parsed grammar is a deliberate subset of what the tree types can
//! carry, per the declaration/type/expression skeleton this layer covers:
//! const and var declarations bind a single identifier with a single
//! initializer, const declarations come in the single-spec form (grouped
//! `const (...)` is future work), each parameter declaration binds at most
//! one name, and struct and interface type literals parse with empty bodies.
//! The relations below state exactly the accepted subset.

use vstd::prelude::*;
use crate::pos::Position;
use crate::token::{Token, TokenKind, DelimToken, Keyword, Literal, TokView, LitView};
use crate::ast::{
    SourceFile, ImportDecl, ImportSpec, ImportKind, DeclStatement, TopLevelDecl, ConstDecl,
    ConstSpec, TypeDecl, VarDecl, Identifier, Expression, BinaryOperator, UnaryExpr,
    UnaryOperator, PrimaryExpr, Operand, OperandKind, Conversion, Argument, Slice, FuncDecl,
    MethodDecl, FuncSignature, Parameters, ParameterDecl, Type, TypeLiteral, MaybeQualifiedIdent,
    ArrayType, StructType, PointerType, FuncType, InterfaceType, SliceType, MapType, ChanType,
    ChanDir,
};

verus! {

// === Token stream views ===

/// The kinds of a token sequence, as mathematical values.
pub open spec fn views_of(toks: Seq<Token>) -> Seq<TokView> {
    toks.map_values(|t: Token| t.kind@)
}

/// Whether a token view is the whitespace token.
pub open spec fn is_ws_view(t: TokView) -> bool {
    t is Whitespace
}

/// A token view sequence with the whitespace tokens removed: what the parser
/// consumes.
pub open spec fn strip_ws(ts: Seq<TokView>) -> Seq<TokView> {
    ts.filter(|t: TokView| !is_ws_view(t))
}

// === The grammar, as relations from nodes to their token spellings ===

/// The token that spells a binary operator.
pub open spec fn binop_token(op: BinaryOperator) -> TokView {
    match op {
        BinaryOperator::LogicalOr => TokView::PipePipe,
        BinaryOperator::LogicalAnd => TokView::AmpAmp,
        BinaryOperator::Equal => TokView::EqualsEquals,
        BinaryOperator::NotEqual => TokView::NotEquals,
        BinaryOperator::Less => TokView::Lt,
        BinaryOperator::LessEqual => TokView::LtEquals,
        BinaryOperator::Greater => TokView::Gt,
        BinaryOperator::GreaterEqual => TokView::GtEquals,
        BinaryOperator::Add => TokView::Plus,
        BinaryOperator::Subtract => TokView::Minus,
        BinaryOperator::BitOr => TokView::Pipe,
        BinaryOperator::BitXor => TokView::Caret,
        BinaryOperator::Multiply => TokView::Star,
        BinaryOperator::Divide => TokView::Slash,
        BinaryOperator::Modulo => TokView::Percent,
        BinaryOperator::ShiftLeft => TokView::Shl,
        BinaryOperator::ShiftRight => TokView::Shr,
        BinaryOperator::BitAnd => TokView::Amp,
        BinaryOperator::BitClear => TokView::AmpCaret,
    }
}

/// The precedence level of a binary operator: 5 binds tightest, 1 loosest.
pub open spec fn binop_level(op: BinaryOperator) -> int {
    match op {
        BinaryOperator::LogicalOr => 1,
        BinaryOperator::LogicalAnd => 2,
        BinaryOperator::Equal => 3,
        BinaryOperator::NotEqual => 3,
        BinaryOperator::Less => 3,
        BinaryOperator::LessEqual => 3,
        BinaryOperator::Greater => 3,
        BinaryOperator::GreaterEqual => 3,
        BinaryOperator::Add => 4,
        BinaryOperator::Subtract => 4,
        BinaryOperator::BitOr => 4,
        BinaryOperator::BitXor => 4,
        BinaryOperator::Multiply => 5,
        BinaryOperator::Divide => 5,
        BinaryOperator::Modulo => 5,
        BinaryOperator::ShiftLeft => 5,
        BinaryOperator::ShiftRight => 5,
        BinaryOperator::BitAnd => 5,
        BinaryOperator::BitClear => 5,
    }
}

/// The token that spells a prefix unary operator.
pub open spec fn unop_token(op: UnaryOperator) -> TokView {
    match op {
        UnaryOperator::Plus => TokView::Plus,
        UnaryOperator::Minus => TokView::Minus,
        UnaryOperator::Not => TokView::Not,
        UnaryOperator::Caret => TokView::Caret,
        UnaryOperator::Star => TokView::Star,
        UnaryOperator::Amp => TokView::Amp,
        UnaryOperator::Receive => TokView::LeftArrow,
    }
}

/// `ts` spells the possibly-qualified identifier `q`.
pub open spec fn qualified_ident_match(q: MaybeQualifiedIdent, ts: Seq<TokView>) -> bool {
    match q.package {
        None => ts == seq![TokView::Ident(q.name@)],
        Some(p) => ts == seq![TokView::Ident(p@), TokView::Dot, TokView::Ident(q.name@)],
    }
}

/// `ts` spells `e` as an expression at binding level `level` (1 binds
/// loosest, 5 tightest; 6 is the unary layer). A binary node must carry an
/// operator of exactly the current level, its left operand at the same level
/// (so operators of equal level fold left-associatively) and its right
/// operand one level tighter: the precedence-climbing tree of the five-level
/// table, which pins the grouping — `a || b && c` can only split at `||`.
pub open spec fn expr_match_at(e: Expression, ts: Seq<TokView>, level: int) -> bool
    decreases e, 6 - level,
{
    if level >= 6 {
        match e {
            Expression::UnaryExpr(u) => unary_match(u, ts),
            Expression::BinaryOperation(_, _, _) => false,
        }
    } else {
        match e {
            Expression::UnaryExpr(_) => expr_match_at(e, ts, level + 1),
            Expression::BinaryOperation(op, l, r) => if binop_level(op) == level {
                exists|k: int|
                    0 < k < ts.len() && expr_match_at(*l, #[trigger] ts.subrange(0, k), level)
                        && ts[k] == binop_token(op) && expr_match_at(
                        *r,
                        ts.subrange(k + 1, ts.len() as int),
                        level + 1,
                    )
            } else {
                expr_match_at(e, ts, level + 1)
            },
        }
    }
}

/// `ts` spells the expression `e`, starting at the loosest binding level.
pub open spec fn expr_match(e: Expression, ts: Seq<TokView>) -> bool
    decreases e, 7int,
{
    expr_match_at(e, ts, 1)
}

/// A binary node whose operator binds loosest cannot spell anything at a
/// tighter level than its operator's.
proof fn lemma_binary_not_below(e: Expression, ts: Seq<TokView>, m: int)
    requires
        e is BinaryOperation,
        binop_level(e->BinaryOperation_0) < m <= 6,
    ensures
        !expr_match_at(e, ts, m),
    decreases 6 - m,
{
    if m < 6 {
        lemma_binary_not_below(e, ts, m + 1);
    }
}

/// An expression at a tighter level is also one at a looser level.
proof fn lemma_expr_weaken(e: Expression, ts: Seq<TokView>, level: int)
    requires
        1 <= level <= 5,
        expr_match_at(e, ts, level + 1),
    ensures
        expr_match_at(e, ts, level),
{
    match e {
        Expression::UnaryExpr(_) => {},
        Expression::BinaryOperation(op, _, _) => {
            if binop_level(op) == level {
                lemma_binary_not_below(e, ts, level + 1);
            }
        },
    }
}

/// `ts` spells the unary expression `u`.
pub open spec fn unary_match(u: UnaryExpr, ts: Seq<TokView>) -> bool
    decreases u, 0int,
{
    match u {
        UnaryExpr::PrimaryExpr(p) => primary_match(*p, ts),
        UnaryExpr::UnaryOperation(op, inner) => ts.len() >= 1 && ts[0] == unop_token(op)
            && unary_match(*inner, ts.subrange(1, ts.len() as int)),
    }
}

/// `ts` spells the primary expression `p`: a base operand or conversion, or a
/// chained suffix operation.
pub open spec fn primary_match(p: PrimaryExpr, ts: Seq<TokView>) -> bool
    decreases p, 0int,
{
    match p {
        PrimaryExpr::Operand(o) => operand_match(o, ts),
        PrimaryExpr::Conversion(c) => exists|k: int|
            0 < k < ts.len() - 1 && type_match(c.typ, #[trigger] ts.subrange(0, k)) && ts[k]
                == TokView::OpenDelim(DelimToken::Paren) && expr_match(
                *c.expr,
                ts.subrange(k + 1, ts.len() as int - 1),
            ) && ts[ts.len() - 1] == TokView::CloseDelim(DelimToken::Paren),
        PrimaryExpr::Selection(base, name) => ts.len() >= 3 && primary_match(
            *base,
            ts.subrange(0, ts.len() as int - 2),
        ) && ts[ts.len() - 2] == TokView::Dot && ts[ts.len() - 1] == TokView::Ident(name@),
        PrimaryExpr::Indexing(base, e) => ts.len() >= 4 && exists|k: int|
            0 < k < ts.len() - 2 && primary_match(*base, #[trigger] ts.subrange(0, k)) && ts[k]
                == TokView::OpenDelim(DelimToken::Bracket) && expr_match(
                e,
                ts.subrange(k + 1, ts.len() as int - 1),
            ) && ts[ts.len() - 1] == TokView::CloseDelim(DelimToken::Bracket),
        PrimaryExpr::Slicing(base, sl) => ts.len() >= 4 && exists|k: int|
            0 < k < ts.len() - 2 && primary_match(*base, #[trigger] ts.subrange(0, k)) && ts[k]
                == TokView::OpenDelim(DelimToken::Bracket) && slice_match(
                sl,
                ts.subrange(k + 1, ts.len() as int - 1),
            ) && ts[ts.len() - 1] == TokView::CloseDelim(DelimToken::Bracket),
        PrimaryExpr::TypeAssertion(base, t) => ts.len() >= 5 && exists|k: int|
            0 < k < ts.len() - 3 && primary_match(*base, #[trigger] ts.subrange(0, k)) && ts[k]
                == TokView::Dot && ts[k + 1] == TokView::OpenDelim(DelimToken::Paren) && type_match(
                t,
                ts.subrange(k + 2, ts.len() as int - 1),
            ) && ts[ts.len() - 1] == TokView::CloseDelim(DelimToken::Paren),
        PrimaryExpr::FunctionCall(base, args) => ts.len() >= 3 && exists|k: int|
            0 < k < ts.len() - 1 && primary_match(*base, #[trigger] ts.subrange(0, k)) && ts[k]
                == TokView::OpenDelim(DelimToken::Paren) && arg_list_match(
                args@,
                ts.subrange(k + 1, ts.len() as int - 1),
            ) && ts[ts.len() - 1] == TokView::CloseDelim(DelimToken::Paren),
    }
}

/// `ts` spells the base operand `o`.
pub open spec fn operand_match(o: Operand, ts: Seq<TokView>) -> bool
    decreases o, 0int,
{
    match o.kind {
        OperandKind::Lit(Literal::Str(s)) => ts == seq![TokView::Literal(LitView::Str(s@))],
        OperandKind::Lit(Literal::Int(s)) => ts == seq![TokView::Literal(LitView::Int(s@))],
        OperandKind::Name(q) => qualified_ident_match(q, ts),
        OperandKind::Parenthesized(e) => ts.len() >= 3 && ts[0] == TokView::OpenDelim(
            DelimToken::Paren,
        ) && expr_match(*e, ts.subrange(1, ts.len() as int - 1)) && ts[ts.len() - 1]
            == TokView::CloseDelim(DelimToken::Paren),
    }
}

/// `ts` spells the slice bounds `sl` (the text between the brackets). In the
/// two-index form each bound is independently optional; the three-index form
/// requires all three.
pub open spec fn slice_match(sl: Slice, ts: Seq<TokView>) -> bool
    decreases sl, 0int,
{
    match sl {
        Slice::TwoIndex(lo, hi) => exists|k: int|
            0 <= k < ts.len() && opt_expr_match(lo, #[trigger] ts.subrange(0, k)) && ts[k]
                == TokView::Colon && opt_expr_match(hi, ts.subrange(k + 1, ts.len() as int)),
        Slice::ThreeIndex(lo, hi, mx) => exists|k: int, m: int|
            0 < k < m < ts.len() && expr_match(lo, #[trigger] ts.subrange(0, k)) && ts[k]
                == TokView::Colon && expr_match(hi, #[trigger] ts.subrange(k + 1, m)) && ts[m]
                == TokView::Colon && expr_match(mx, ts.subrange(m + 1, ts.len() as int)),
    }
}

/// `ts` spells the optional slice bound: absent bounds take no tokens.
pub open spec fn opt_expr_match(e: Option<Expression>, ts: Seq<TokView>) -> bool
    decreases e, 8int,
{
    match e {
        None => ts.len() == 0,
        Some(inner) => expr_match(inner, ts),
    }
}

/// `ts` spells the comma-separated argument list `args` (possibly empty).
pub open spec fn arg_list_match(args: Seq<Argument>, ts: Seq<TokView>) -> bool
    decreases args, 0int,
{
    if args.len() == 0 {
        ts.len() == 0
    } else if args.len() == 1 {
        expr_match(args[0].expr, ts)
    } else {
        exists|k: int|
            0 <= k < ts.len() && arg_list_match(args.drop_last(), #[trigger] ts.subrange(0, k))
                && ts[k] == TokView::Comma && expr_match(
                args.last().expr,
                ts.subrange(k + 1, ts.len() as int),
            )
    }
}

/// `ts` spells the type `t`: a possibly-qualified name, or a type literal
/// dispatched on its leading keyword or punctuation.
pub open spec fn type_match(t: Type, ts: Seq<TokView>) -> bool
    decreases t, 0int,
{
    match t {
        Type::Plain(q) => qualified_ident_match(q, ts),
        Type::Literal(tl) => match tl {
            TypeLiteral::Array(a) => ts.len() >= 4 && exists|k: int|
                1 < k < ts.len() - 1 && ts[0] == TokView::OpenDelim(DelimToken::Bracket)
                    && expr_match(a.length, #[trigger] ts.subrange(1, k)) && ts[k]
                    == TokView::CloseDelim(DelimToken::Bracket) && type_match(
                    *a.elem,
                    ts.subrange(k + 1, ts.len() as int),
                ),
            TypeLiteral::Slice(sl) => ts.len() >= 3 && ts[0] == TokView::OpenDelim(
                DelimToken::Bracket,
            ) && ts[1] == TokView::CloseDelim(DelimToken::Bracket) && type_match(
                *sl.elem,
                ts.subrange(2, ts.len() as int),
            ),
            TypeLiteral::Pointer(p) => ts.len() >= 2 && ts[0] == TokView::Star && type_match(
                *p.base,
                ts.subrange(1, ts.len() as int),
            ),
            TypeLiteral::MapLit(m) => ts.len() >= 5 && exists|k: int|
                2 < k < ts.len() - 1 && ts[0] == TokView::Keyword(Keyword::MapKw) && ts[1]
                    == TokView::OpenDelim(DelimToken::Bracket) && type_match(
                    *m.key,
                    #[trigger] ts.subrange(2, k),
                ) && ts[k] == TokView::CloseDelim(DelimToken::Bracket) && type_match(
                    *m.value,
                    ts.subrange(k + 1, ts.len() as int),
                ),
            TypeLiteral::Chan(c) => match c.dir {
                ChanDir::Bidirectional => ts.len() >= 2 && ts[0] == TokView::Keyword(Keyword::Chan)
                    && type_match(*c.elem, ts.subrange(1, ts.len() as int)),
                ChanDir::SendOnly => ts.len() >= 3 && ts[0] == TokView::Keyword(Keyword::Chan)
                    && ts[1] == TokView::LeftArrow && type_match(
                    *c.elem,
                    ts.subrange(2, ts.len() as int),
                ),
                ChanDir::ReceiveOnly => ts.len() >= 3 && ts[0] == TokView::LeftArrow && ts[1]
                    == TokView::Keyword(Keyword::Chan) && type_match(
                    *c.elem,
                    ts.subrange(2, ts.len() as int),
                ),
            },
            TypeLiteral::Function(f) => ts.len() >= 3 && ts[0] == TokView::Keyword(Keyword::Func)
                && signature_match(f.signature, ts.subrange(1, ts.len() as int)),
            // Struct and interface literals parse with empty bodies at this
            // layer; the field and method-spec types carry the full shapes
            // for later passes.
            TypeLiteral::Struct(st) => st.fields@.len() == 0 && ts == seq![
                TokView::Keyword(Keyword::Struct),
                TokView::OpenDelim(DelimToken::Brace),
                TokView::CloseDelim(DelimToken::Brace),
            ],
            TypeLiteral::Interface(it) => it.methods@.len() == 0 && ts == seq![
                TokView::Keyword(Keyword::Interface),
                TokView::OpenDelim(DelimToken::Brace),
                TokView::CloseDelim(DelimToken::Brace),
            ],
        },
    }
}

/// `ts` spells one parameter declaration: an optional single name, then the
/// shared type.
pub open spec fn param_decl_match(pd: ParameterDecl, ts: Seq<TokView>) -> bool
    decreases pd, 0int,
{
    if pd.identifiers@.len() == 0 {
        type_match(pd.typ, ts)
    } else {
        pd.identifiers@.len() == 1 && ts.len() >= 2 && ts[0] == TokView::Ident(
            pd.identifiers@[0]@,
        ) && type_match(pd.typ, ts.subrange(1, ts.len() as int))
    }
}

/// `ts` spells the comma-separated parameter declarations (possibly empty;
/// the text between the parentheses).
pub open spec fn param_list_match(decls: Seq<ParameterDecl>, ts: Seq<TokView>) -> bool
    decreases decls, 0int,
{
    if decls.len() == 0 {
        ts.len() == 0
    } else if decls.len() == 1 {
        param_decl_match(decls[0], ts)
    } else {
        exists|k: int|
            0 <= k < ts.len() && param_list_match(decls.drop_last(), #[trigger] ts.subrange(0, k))
                && ts[k] == TokView::Comma && param_decl_match(
                decls.last(),
                ts.subrange(k + 1, ts.len() as int),
            )
    }
}

/// `ts` spells a parenthesized parameter list.
pub open spec fn params_match(ps: Parameters, ts: Seq<TokView>) -> bool
    decreases ps, 0int,
{
    ts.len() >= 2 && ts[0] == TokView::OpenDelim(DelimToken::Paren) && ts[ts.len() - 1]
        == TokView::CloseDelim(DelimToken::Paren) && param_list_match(
        ps.decls@,
        ts.subrange(1, ts.len() as int - 1),
    )
}

/// `ts` spells the signature `sig`: the parameters, then either no result, a
/// bare result type, or a parenthesized result list.
pub open spec fn signature_match(sig: FuncSignature, ts: Seq<TokView>) -> bool
    decreases sig, 0int,
{
    exists|k: int|
        0 < k <= ts.len() && params_match(sig.parameters, #[trigger] ts.subrange(0, k)) && {
            ||| (sig.result.decls@.len() == 0 && k == ts.len())
            ||| (sig.result.decls@.len() == 1 && sig.result.decls@[0].identifiers@.len() == 0
                && type_match(sig.result.decls@[0].typ, ts.subrange(k, ts.len() as int)))
            ||| params_match(sig.result, ts.subrange(k, ts.len() as int))
        }
}

/// `ts` spells a placeholder function body: an empty block (the statement
/// grammar is out of scope at this layer).
pub open spec fn body_match(ts: Seq<TokView>) -> bool {
    ts == seq![
        TokView::OpenDelim(DelimToken::Brace),
        TokView::CloseDelim(DelimToken::Brace),
    ]
}

/// `ts` spells the function declaration `fd`; the body is optional.
pub open spec fn func_decl_match(fd: FuncDecl, ts: Seq<TokView>) -> bool {
    ts.len() >= 2 && ts[0] == TokView::Keyword(Keyword::Func) && ts[1] == TokView::Ident(fd.name@)
        && fd.body@.len() == 0 && exists|k: int|
        2 < k <= ts.len() && signature_match(fd.signature, #[trigger] ts.subrange(2, k)) && (k
            == ts.len() || (k + 2 == ts.len() && body_match(ts.subrange(k, ts.len() as int))))
}

/// `ts` spells the method declaration `md`: a function with a parenthesized
/// receiver before its name; the body is optional.
pub open spec fn method_decl_match(md: MethodDecl, ts: Seq<TokView>) -> bool {
    ts.len() >= 6 && ts[0] == TokView::Keyword(Keyword::Func) && ts[1] == TokView::OpenDelim(
        DelimToken::Paren,
    ) && md.body@.len() == 0 && exists|k: int|
        2 < k < ts.len() - 2 && param_decl_match(md.receiver, #[trigger] ts.subrange(2, k))
            && ts[k] == TokView::CloseDelim(DelimToken::Paren) && ts[k + 1] == TokView::Ident(
            md.name@,
        ) && exists|m: int|
            k + 2 < m <= ts.len() && signature_match(md.signature, #[trigger] ts.subrange(k + 2, m))
                && (m == ts.len() || (m + 2 == ts.len() && body_match(
                ts.subrange(m, ts.len() as int),
            )))
}

/// `ts` spells the constant declaration (single-spec form, one identifier).
pub open spec fn const_decl_match(cd: ConstDecl, ts: Seq<TokView>) -> bool {
    ts.len() >= 2 && ts[0] == TokView::Keyword(Keyword::Const) && const_spec_match(
        cd.0,
        ts.subrange(1, ts.len() as int),
    )
}

/// `ts` spells one constant spec: a name, then optionally a type and an
/// initializer, or a bare initializer, or nothing.
pub open spec fn const_spec_match(cs: ConstSpec, ts: Seq<TokView>) -> bool {
    cs.identifiers@.len() == 1 && ts.len() >= 1 && ts[0] == TokView::Ident(
        cs.identifiers@[0].name@,
    ) && {
        ||| (cs.typ is None && cs.expressions@.len() == 0 && ts.len() == 1)
        ||| (cs.typ is None && cs.expressions@.len() == 1 && ts.len() >= 3 && ts[1]
            == TokView::Equals && expr_match(cs.expressions@[0], ts.subrange(2, ts.len() as int)))
        ||| (cs.typ is Some && cs.expressions@.len() == 1 && exists|k: int|
            1 < k < ts.len() && type_match(cs.typ->0, #[trigger] ts.subrange(1, k)) && ts[k]
                == TokView::Equals && expr_match(
                cs.expressions@[0],
                ts.subrange(k + 1, ts.len() as int),
            ))
    }
}

/// `ts` spells the type declaration `td`.
pub open spec fn type_decl_match(td: TypeDecl, ts: Seq<TokView>) -> bool {
    ts.len() >= 3 && ts[0] == TokView::Keyword(Keyword::Type) && ts[1] == TokView::Ident(td.name@)
        && type_match(td.typ, ts.subrange(2, ts.len() as int))
}

/// `ts` spells the variable declaration `vd` (single name): a type, an
/// initializer, or both.
pub open spec fn var_decl_match(vd: VarDecl, ts: Seq<TokView>) -> bool {
    vd.identifiers@.len() == 1 && ts.len() >= 2 && ts[0] == TokView::Keyword(Keyword::Var) && ts[1]
        == TokView::Ident(vd.identifiers@[0].name@) && {
        ||| (vd.expressions@.len() == 0 && vd.typ is Some && type_match(
            vd.typ->0,
            ts.subrange(2, ts.len() as int),
        ))
        ||| (vd.expressions@.len() == 1 && vd.typ is None && ts.len() >= 4 && ts[2]
            == TokView::Equals && expr_match(vd.expressions@[0], ts.subrange(3, ts.len() as int)))
        ||| (vd.expressions@.len() == 1 && vd.typ is Some && exists|k: int|
            2 < k < ts.len() && type_match(vd.typ->0, #[trigger] ts.subrange(2, k)) && ts[k]
                == TokView::Equals && expr_match(
                vd.expressions@[0],
                ts.subrange(k + 1, ts.len() as int),
            ))
    }
}

/// `ts` spells the statement-level declaration `ds`.
pub open spec fn decl_statement_match(ds: DeclStatement, ts: Seq<TokView>) -> bool {
    match ds {
        DeclStatement::Const(cd) => const_decl_match(cd, ts),
        DeclStatement::TypeDecl(td) => type_decl_match(td, ts),
        DeclStatement::VarDecl(vd) => var_decl_match(vd, ts),
    }
}

/// `ts` spells the top-level declaration `d`.
pub open spec fn top_decl_match(d: TopLevelDecl, ts: Seq<TokView>) -> bool {
    match d {
        TopLevelDecl::Statement(ds) => decl_statement_match(ds, ts),
        TopLevelDecl::Func(fd) => func_decl_match(fd, ts),
        TopLevelDecl::Method(md) => method_decl_match(md, ts),
    }
}

/// `ts` spells one import spec: an optional dot or alias, then the path.
pub open spec fn import_spec_match(sp: ImportSpec, ts: Seq<TokView>) -> bool {
    match sp.kind {
        ImportKind::Normal => ts == seq![TokView::Literal(LitView::Str(sp.path@))],
        ImportKind::Alias(a) => ts == seq![
            TokView::Ident(a@),
            TokView::Literal(LitView::Str(sp.path@)),
        ],
        ImportKind::Glob => ts == seq![TokView::Dot, TokView::Literal(LitView::Str(sp.path@))],
    }
}

/// `ts` spells the semicolon-separated import specs of a group (nonempty, no
/// trailing semicolon; the text between the parentheses).
pub open spec fn import_spec_list_match(specs: Seq<ImportSpec>, ts: Seq<TokView>) -> bool
    decreases specs,
{
    if specs.len() == 0 {
        false
    } else if specs.len() == 1 {
        import_spec_match(specs[0], ts)
    } else {
        exists|k: int|
            0 < k < ts.len() && import_spec_list_match(
                specs.drop_last(),
                #[trigger] ts.subrange(0, k),
            ) && ts[k] == TokView::Semicolon && import_spec_match(
                specs.last(),
                ts.subrange(k + 1, ts.len() as int),
            )
    }
}

/// `ts` spells the import declaration `d`: `import` followed by a single spec
/// or a parenthesized, semicolon-separated group.
pub open spec fn import_decl_match(d: ImportDecl, ts: Seq<TokView>) -> bool {
    ts.len() >= 2 && ts[0] == TokView::Keyword(Keyword::Import) && {
        ||| (d.specs@.len() == 1 && import_spec_match(d.specs@[0], ts.subrange(1, ts.len() as int)))
        ||| (ts.len() >= 3 && ts[1] == TokView::OpenDelim(DelimToken::Paren) && ts[ts.len() - 1]
            == TokView::CloseDelim(DelimToken::Paren) && import_spec_list_match(
            d.specs@,
            ts.subrange(2, ts.len() as int - 1),
        ))
    }
}

/// `ts` spells the juxtaposed import declarations, in order.
pub open spec fn import_decl_list_match(decls: Seq<ImportDecl>, ts: Seq<TokView>) -> bool
    decreases decls,
{
    if decls.len() == 0 {
        ts.len() == 0
    } else {
        exists|k: int|
            0 <= k < ts.len() && import_decl_list_match(
                decls.drop_last(),
                #[trigger] ts.subrange(0, k),
            ) && import_decl_match(decls.last(), ts.subrange(k, ts.len() as int))
    }
}

/// `ts` spells the juxtaposed top-level declarations, in order.
pub open spec fn top_decl_list_match(decls: Seq<TopLevelDecl>, ts: Seq<TokView>) -> bool
    decreases decls,
{
    if decls.len() == 0 {
        ts.len() == 0
    } else {
        exists|k: int|
            0 <= k < ts.len() && top_decl_list_match(
                decls.drop_last(),
                #[trigger] ts.subrange(0, k),
            ) && top_decl_match(decls.last(), ts.subrange(k, ts.len() as int))
    }
}

/// `ts` spells the whole source file `f`: the package clause, then the import
/// declarations, then the top-level declarations — so imports precede all
/// top-level declarations by construction.
pub open spec fn file_match(f: SourceFile, ts: Seq<TokView>) -> bool {
    ts.len() >= 2 && ts[0] == TokView::Keyword(Keyword::Package) && ts[1] == TokView::Ident(
    f.package@,
    ) && exists|m: int|
        2 <= m <= ts.len() && import_decl_list_match(f.import_decls@, #[trigger] ts.subrange(2, m))
            && top_decl_list_match(f.top_level_decls@, ts.subrange(m, ts.len() as int))
}

// === List-growing lemmas ===

/// Nesting of subranges: a subrange of a subrange is a subrange.
pub proof fn lemma_sub_sub(ts: Seq<TokView>, i: int, j: int, a: int, b: int)
    requires
        0 <= i <= j <= ts.len(),
        0 <= a <= b <= j - i,
    ensures
        ts.subrange(i, j).subrange(a, b) == ts.subrange(i + a, i + b),
{
    assert(ts.subrange(i, j).subrange(a, b) =~= ts.subrange(i + a, i + b));
}

/// Growing a semicolon-separated import-spec list by one spec.
pub proof fn lemma_import_spec_list_push(
    specs: Seq<ImportSpec>,
    ts1: Seq<TokView>,
    x: ImportSpec,
    ts2: Seq<TokView>,
)
    requires
        specs.len() >= 1,
        import_spec_list_match(specs, ts1),
        import_spec_match(x, ts2),
    ensures
        import_spec_list_match(specs.push(x), ts1 + seq![TokView::Semicolon] + ts2),
{
    let whole = ts1 + seq![TokView::Semicolon] + ts2;
    assert(specs.push(x).drop_last() =~= specs);
    assert(specs.push(x).last() == x);
    assert(whole.subrange(0, ts1.len() as int) =~= ts1);
    assert(whole[ts1.len() as int] == TokView::Semicolon);
    assert(whole.subrange(ts1.len() as int + 1, whole.len() as int) =~= ts2);
    assert(import_spec_list_match(specs.push(x), whole));
}

/// Growing a comma-separated argument list by one argument.
pub proof fn lemma_arg_list_push(
    args: Seq<Argument>,
    ts1: Seq<TokView>,
    x: Argument,
    ts2: Seq<TokView>,
)
    requires
        args.len() >= 1,
        arg_list_match(args, ts1),
        expr_match(x.expr, ts2),
    ensures
        arg_list_match(args.push(x), ts1 + seq![TokView::Comma] + ts2),
{
    let whole = ts1 + seq![TokView::Comma] + ts2;
    assert(args.push(x).drop_last() =~= args);
    assert(args.push(x).last() == x);
    assert(whole.subrange(0, ts1.len() as int) =~= ts1);
    assert(whole[ts1.len() as int] == TokView::Comma);
    assert(whole.subrange(ts1.len() as int + 1, whole.len() as int) =~= ts2);
    assert(arg_list_match(args.push(x).drop_last(), whole.subrange(0, ts1.len() as int)));
    assert(expr_match(
        args.push(x).last().expr,
        whole.subrange(ts1.len() as int + 1, whole.len() as int),
    ));
    assert(arg_list_match(args.push(x), whole));
}

/// Growing a comma-separated parameter list by one declaration.
pub proof fn lemma_param_list_push(
    decls: Seq<ParameterDecl>,
    ts1: Seq<TokView>,
    x: ParameterDecl,
    ts2: Seq<TokView>,
)
    requires
        decls.len() >= 1,
        param_list_match(decls, ts1),
        param_decl_match(x, ts2),
    ensures
        param_list_match(decls.push(x), ts1 + seq![TokView::Comma] + ts2),
{
    let whole = ts1 + seq![TokView::Comma] + ts2;
    assert(decls.push(x).drop_last() =~= decls);
    assert(decls.push(x).last() == x);
    assert(whole.subrange(0, ts1.len() as int) =~= ts1);
    assert(whole[ts1.len() as int] == TokView::Comma);
    assert(whole.subrange(ts1.len() as int + 1, whole.len() as int) =~= ts2);
    assert(param_list_match(decls.push(x).drop_last(), whole.subrange(0, ts1.len() as int)));
    assert(param_decl_match(
        decls.push(x).last(),
        whole.subrange(ts1.len() as int + 1, whole.len() as int),
    ));
    assert(param_list_match(decls.push(x), whole));
}

/// Growing a juxtaposed import-declaration list by one declaration.
pub proof fn lemma_import_decl_list_push(
    decls: Seq<ImportDecl>,
    ts1: Seq<TokView>,
    x: ImportDecl,
    ts2: Seq<TokView>,
)
    requires
        import_decl_list_match(decls, ts1),
        import_decl_match(x, ts2),
        ts2.len() > 0,
    ensures
        import_decl_list_match(decls.push(x), ts1 + ts2),
{
    let whole = ts1 + ts2;
    assert(decls.push(x).drop_last() =~= decls);
    assert(decls.push(x).last() == x);
    assert(whole.subrange(0, ts1.len() as int) =~= ts1);
    assert(whole.subrange(ts1.len() as int, whole.len() as int) =~= ts2);
    assert(import_decl_list_match(decls.push(x), whole));
}

/// Growing a juxtaposed top-level-declaration list by one declaration.
pub proof fn lemma_top_decl_list_push(
    decls: Seq<TopLevelDecl>,
    ts1: Seq<TokView>,
    x: TopLevelDecl,
    ts2: Seq<TokView>,
)
    requires
        top_decl_list_match(decls, ts1),
        top_decl_match(x, ts2),
        ts2.len() > 0,
    ensures
        top_decl_list_match(decls.push(x), ts1 + ts2),
{
    let whole = ts1 + ts2;
    assert(decls.push(x).drop_last() =~= decls);
    assert(decls.push(x).last() == x);
    assert(whole.subrange(0, ts1.len() as int) =~= ts1);
    assert(whole.subrange(ts1.len() as int, whole.len() as int) =~= ts2);
    assert(top_decl_list_match(decls.push(x), whole));
}

/// Removing a whitespace-or-not token from the back of a stream commutes
/// with whitespace stripping.
pub proof fn lemma_strip_push(s: Seq<TokView>, t: TokView)
    ensures
        strip_ws(s.push(t)) == if !is_ws_view(t) {
            strip_ws(s).push(t)
        } else {
            strip_ws(s)
        },
{
    reveal(Seq::filter);
    assert(s.push(t).drop_last() =~= s);
    assert(s.push(t).last() == t);
}

// === The executable parser ===

/// A token that is a complete operand, and so a complete expression, by
/// itself: an identifier or a literal.
pub open spec fn lone_operand(t: TokView) -> bool {
    t is Ident || t is Literal
}

/// From `k` to the end, `ts` is a plain chain of primary-expression
/// suffixes: selectors, single-literal index operations, and empty argument
/// lists. Such a chain after an operand is owed acceptance by the parser.
pub open spec fn plain_suffix_chain(ts: Seq<TokView>, k: int) -> bool
    decreases ts.len() - k,
{
    if k >= ts.len() {
        k == ts.len()
    } else if ts[k] == TokView::Dot {
        k + 1 < ts.len() && ts[k + 1] is Ident && plain_suffix_chain(ts, k + 2)
    } else if ts[k] == TokView::OpenDelim(DelimToken::Bracket) {
        k + 2 < ts.len() && lone_operand(ts[k + 1]) && ts[k + 2] == TokView::CloseDelim(
            DelimToken::Bracket,
        ) && plain_suffix_chain(ts, k + 3)
    } else if ts[k] == TokView::OpenDelim(DelimToken::Paren) {
        k + 1 < ts.len() && ts[k + 1] == TokView::CloseDelim(DelimToken::Paren)
            && plain_suffix_chain(ts, k + 2)
    } else {
        false
    }
}

/// Where the import spec starting at `k` ends, if its shape is a plain
/// path, an aliased path, or a dot import.
pub open spec fn import_spec_end(ts: Seq<TokView>, k: int) -> Option<int> {
    if 0 <= k < ts.len() && ts[k] is Literal && ts[k]->Literal_0 is Str {
        Some(k + 1)
    } else if 0 <= k && k + 1 < ts.len() && (ts[k] is Ident || ts[k] == TokView::Dot) && ts[k + 1]
        is Literal && ts[k + 1]->Literal_0 is Str {
        Some(k + 2)
    } else {
        None
    }
}

/// Where the rest of an import group ends, from just after a spec: pairs of
/// `;` and a spec until the closing parenthesis; the result is the index
/// after it.
pub open spec fn import_group_end(ts: Seq<TokView>, k: int) -> Option<int>
    decreases ts.len() - k,
{
    if k < 0 || k >= ts.len() {
        None
    } else if ts[k] == TokView::CloseDelim(DelimToken::Paren) {
        Some(k + 1)
    } else if ts[k] == TokView::Semicolon {
        match import_spec_end(ts, k + 1) {
            Some(m) => if m > k {
                import_group_end(ts, m)
            } else {
                None
            },
            None => None,
        }
    } else {
        None
    }
}

/// Where the import declaration starting at `k` ends, if its shape is the
/// single form or a parenthesized group of at least one spec.
pub open spec fn import_decl_end(ts: Seq<TokView>, k: int) -> Option<int> {
    if 0 <= k < ts.len() && ts[k] == TokView::Keyword(Keyword::Import) {
        if k + 1 < ts.len() && ts[k + 1] == TokView::OpenDelim(DelimToken::Paren) {
            match import_spec_end(ts, k + 2) {
                Some(m) => import_group_end(ts, m),
                None => None,
            }
        } else {
            import_spec_end(ts, k + 1)
        }
    } else {
        None
    }
}

/// From `k` to the end, `ts` is a run of import declarations. A file whose
/// body is such a run after its package clause is owed acceptance.
pub open spec fn import_stream(ts: Seq<TokView>, k: int) -> bool
    decreases ts.len() - k,
{
    if k >= ts.len() {
        k == ts.len()
    } else {
        match import_decl_end(ts, k) {
            Some(m) => if k < m <= ts.len() {
                import_stream(ts, m)
            } else {
                false
            },
            None => false,
        }
    }
}

/// What the parser expected when it stopped.
#[derive(Debug, Clone, PartialEq, Eq)]
pub enum Expected {
    /// The mandatory `package` keyword opening a source file.
    PackageKeyword,
    /// An identifier.
    Identifier,
    /// An import path (a string literal).
    ImportPath,
    /// An import spec: a dot, an alias name, or a path.
    ImportSpecForm,
    /// A semicolon or the closing parenthesis of an import group.
    ImportGroupSep,
    /// A top-level declaration keyword: `const`, `type`, `var` or `func`.
    TopLevelForm,
    /// A type: a name or a type literal.
    TypeForm,
    /// An operand: a literal, a name, or a parenthesized expression.
    OperandForm,
    /// After `.`: a selector identifier or a type assertion's `(`.
    SelectorForm,
    /// A slice bound: the three-index form requires low and high bounds.
    SliceBound,
    /// The end of the input, when trailing tokens remain.
    EndOfInput,
    /// One exact token.
    ExactTok(TokenKind),
}

/// A syntax error: the construct expected, the token actually found (none at
/// end of input), and its position (end of input uses the position just past
/// the last character).
#[derive(Debug, Clone, PartialEq, Eq)]
pub struct ParseError {
    pub expected: Expected,
    pub found: Option<Token>,
    pub pos: Position,
}

/// The punctuation tokens the parser tests for by shape.
#[derive(Debug, Clone, Copy, PartialEq, Eq, Structural)]
enum Punct {
    OpenParen,
    CloseParen,
    OpenBracket,
    CloseBracket,
    OpenBrace,
    CloseBrace,
    Comma,
    Dot,
    Semicolon,
    Colon,
    Equals,
    Star,
    LeftArrow,
}

/// The view of a punctuation token.
spec fn punct_view(p: Punct) -> TokView {
    match p {
        Punct::OpenParen => TokView::OpenDelim(DelimToken::Paren),
        Punct::CloseParen => TokView::CloseDelim(DelimToken::Paren),
        Punct::OpenBracket => TokView::OpenDelim(DelimToken::Bracket),
        Punct::CloseBracket => TokView::CloseDelim(DelimToken::Bracket),
        Punct::OpenBrace => TokView::OpenDelim(DelimToken::Brace),
        Punct::CloseBrace => TokView::CloseDelim(DelimToken::Brace),
        Punct::Comma => TokView::Comma,
        Punct::Dot => TokView::Dot,
        Punct::Semicolon => TokView::Semicolon,
        Punct::Colon => TokView::Colon,
        Punct::Equals => TokView::Equals,
        Punct::Star => TokView::Star,
        Punct::LeftArrow => TokView::LeftArrow,
    }
}

/// The parser's state: the whitespace-filtered token stream and the position
/// just past the input, for diagnostics at end of input.
pub struct Parser {
    pub toks: Vec<Token>,
    pub eof: Position,
}

impl Parser {
    /// The views of the tokens this parser consumes.
    pub open spec fn vts(self) -> Seq<TokView> {
        views_of(self.toks@)
    }

    /// The number of tokens.
    pub open spec fn n(self) -> int {
        self.toks@.len() as int
    }

    /// The error names a token of this parser's stream and carries that
    /// token's position — or reports end of input at the end-of-input
    /// position.
    pub open spec fn err_in_stream(self, e: ParseError) -> bool {
        match e.found {
            Some(t) => exists|m: int|
                0 <= m < self.toks@.len() && t.kind@ == (#[trigger] self.toks@[m]).kind@ && e.pos
                    == self.toks@[m].pos,
            None => e.pos == self.eof,
        }
    }

    /// A parser over `toks` with the whitespace tokens filtered out, as the
    /// grammar expects; `eof` is the position reported for errors at end of
    /// input.
    pub fn new(toks: Vec<Token>, eof: Position) -> (p: Parser)
        ensures
            p.vts() == strip_ws(views_of(toks@)),
            p.eof == eof,
            forall|m: int|
                0 <= m < p.toks@.len() ==> exists|m0: int|
                    0 <= m0 < toks@.len() && (#[trigger] p.toks@[m]).kind@ == toks@[m0].kind@
                        && p.toks@[m].pos == toks@[m0].pos,
    {
        let mut out: Vec<Token> = Vec::new();
        let mut i: usize = 0;
        proof {
            assert(toks@.subrange(0, 0) =~= Seq::<Token>::empty());
            assert(views_of(Seq::<Token>::empty()) =~= Seq::<TokView>::empty());
            assert(strip_ws(Seq::<TokView>::empty()) =~= Seq::<TokView>::empty());
        }
        while i < toks.len()
            invariant
                i <= toks@.len(),
                views_of(out@) == strip_ws(views_of(toks@.subrange(0, i as int))),
                forall|m: int|
                    0 <= m < out@.len() ==> exists|m0: int|
                        0 <= m0 < toks@.len() && (#[trigger] out@[m]).kind@ == toks@[m0].kind@
                            && out@[m].pos == toks@[m0].pos,
            decreases toks@.len() - i as int,
        {
            let t = &toks[i];
            let ghost prefix = views_of(toks@.subrange(0, i as int));
            proof {
                assert(toks@.subrange(0, i as int + 1) =~= toks@.subrange(0, i as int).push(
                    toks@[i as int],
                ));
                assert(views_of(toks@.subrange(0, i as int + 1)) =~= prefix.push(
                    toks@[i as int].kind@,
                ));
                lemma_strip_push(prefix, toks@[i as int].kind@);
            }
            let keep = match &t.kind {
                TokenKind::Whitespace => false,
                _ => true,
            };
            if keep {
                let copy = Token { kind: clone_kind(&t.kind), pos: t.pos };
                let ghost old_out = out@;
                proof {
                    assert(views_of(out@.push(copy)) =~= views_of(out@).push(copy.kind@));
                }
                out.push(copy);
                proof {
                    assert forall|m: int| 0 <= m < out@.len() implies exists|m0: int|
                        0 <= m0 < toks@.len() && (#[trigger] out@[m]).kind@ == toks@[m0].kind@
                            && out@[m].pos == toks@[m0].pos by {
                        if m < old_out.len() {
                            assert(out@[m] == old_out[m]);
                        } else {
                            assert(out@[m] == copy);
                            assert(copy.kind@ == toks@[i as int].kind@);
                            assert(copy.pos == toks@[i as int].pos);
                        }
                    }
                }
            }
            i = i + 1;
        }
        proof {
            assert(toks@.subrange(0, toks@.len() as int) =~= toks@);
        }
        Parser { toks: out, eof }
    }

    /// The error reported when input remains after a complete construct.
    pub fn trailing_error(&self, i: usize) -> (e: ParseError)
        ensures
            self.err_in_stream(e),
    {
        self.error(i, Expected::EndOfInput)
    }

    /// The error for position `i`: the token there with its position, or end
    /// of input at the end-of-input position.
    fn error(&self, i: usize, expected: Expected) -> (e: ParseError)
        ensures
            e.expected == expected,
            self.err_in_stream(e),
    {
        if i < self.toks.len() {
            let t = &self.toks[i];
            let e = ParseError {
                expected,
                found: Some(Token { kind: clone_kind(&t.kind), pos: t.pos }),
                pos: t.pos,
            };
            proof {
                assert((e.found->0).kind@ == (self.toks@[i as int]).kind@);
                assert(e.pos == (self.toks@[i as int]).pos);
            }
            e
        } else {
            ParseError { expected, found: None, pos: self.eof }
        }
    }

    /// Whether token `i` is the punctuation `p`.
    fn at_punct(&self, i: usize, p: Punct) -> (r: bool)
        ensures
            r == (i < self.n() && self.vts()[i as int] == punct_view(p)),
    {
        if i >= self.toks.len() {
            return false;
        }
        let t = &self.toks[i];
        match (&t.kind, p) {
            (TokenKind::OpenDelim(DelimToken::Paren), Punct::OpenParen) => true,
            (TokenKind::CloseDelim(DelimToken::Paren), Punct::CloseParen) => true,
            (TokenKind::OpenDelim(DelimToken::Bracket), Punct::OpenBracket) => true,
            (TokenKind::CloseDelim(DelimToken::Bracket), Punct::CloseBracket) => true,
            (TokenKind::OpenDelim(DelimToken::Brace), Punct::OpenBrace) => true,
            (TokenKind::CloseDelim(DelimToken::Brace), Punct::CloseBrace) => true,
            (TokenKind::Comma, Punct::Comma) => true,
            (TokenKind::Dot, Punct::Dot) => true,
            (TokenKind::Semicolon, Punct::Semicolon) => true,
            (TokenKind::Colon, Punct::Colon) => true,
            (TokenKind::Equals, Punct::Equals) => true,
            (TokenKind::Star, Punct::Star) => true,
            (TokenKind::LeftArrow, Punct::LeftArrow) => true,
            _ => false,
        }
    }

    /// Whether token `i` is the keyword `k`.
    fn at_keyword(&self, i: usize, k: Keyword) -> (r: bool)
        ensures
            r == (i < self.n() && self.vts()[i as int] == TokView::Keyword(k)),
    {
        if i >= self.toks.len() {
            return false;
        }
        let t = &self.toks[i];
        match &t.kind {
            TokenKind::Keyword(kk) => *kk == k,
            _ => false,
        }
    }

    /// Expect the identifier at `i` and hand its text back.
    fn parse_ident(&self, i: usize) -> (r: Result<(String, usize), ParseError>)
        requires
            i <= self.n(),
        ensures
            match r {
                Ok((s, j)) => j == i + 1 && i < self.n() && self.vts()[i as int]
                    == TokView::Ident(s@),
                Err(e) => self.err_in_stream(e) && !(i < self.n() && self.vts()[i as int] is Ident),
            },
    {
        if i < self.toks.len() {
            let t = &self.toks[i];
            match &t.kind {
                TokenKind::Ident(s) => {
                    return Ok((s.clone(), i + 1));
                },
                _ => {},
            }
        }
        Err(self.error(i, Expected::Identifier))
    }

    /// Expect the string literal at `i` and hand its body back.
    fn parse_string_lit(&self, i: usize) -> (r: Result<(String, usize), ParseError>)
        requires
            i <= self.n(),
        ensures
            match r {
                Ok((s, j)) => j == i + 1 && i < self.n() && self.vts()[i as int]
                    == TokView::Literal(LitView::Str(s@)),
                Err(e) => self.err_in_stream(e) && !(i < self.n() && self.vts()[i as int]
                    is Literal && self.vts()[i as int]->Literal_0 is Str),
            },
    {
        if i < self.toks.len() {
            let t = &self.toks[i];
            match &t.kind {
                TokenKind::Literal(Literal::Str(s)) => {
                    return Ok((s.clone(), i + 1));
                },
                _ => {},
            }
        }
        Err(self.error(i, Expected::ImportPath))
    }
}

/// An owned copy of a token kind, field by field.
fn clone_kind(k: &TokenKind) -> (r: TokenKind)
    ensures
        r@ == k@,
{
    match k {
        TokenKind::OpenDelim(d) => TokenKind::OpenDelim(*d),
        TokenKind::CloseDelim(d) => TokenKind::CloseDelim(*d),
        TokenKind::Comma => TokenKind::Comma,
        TokenKind::Dot => TokenKind::Dot,
        TokenKind::Semicolon => TokenKind::Semicolon,
        TokenKind::Colon => TokenKind::Colon,
        TokenKind::ColonEquals => TokenKind::ColonEquals,
        TokenKind::Plus => TokenKind::Plus,
        TokenKind::Increment => TokenKind::Increment,
        TokenKind::PlusEquals => TokenKind::PlusEquals,
        TokenKind::Minus => TokenKind::Minus,
        TokenKind::Decrement => TokenKind::Decrement,
        TokenKind::MinusEquals => TokenKind::MinusEquals,
        TokenKind::Star => TokenKind::Star,
        TokenKind::StarEquals => TokenKind::StarEquals,
        TokenKind::Slash => TokenKind::Slash,
        TokenKind::SlashEquals => TokenKind::SlashEquals,
        TokenKind::Percent => TokenKind::Percent,
        TokenKind::PercentEquals => TokenKind::PercentEquals,
        TokenKind::Amp => TokenKind::Amp,
        TokenKind::AmpAmp => TokenKind::AmpAmp,
        TokenKind::AmpEquals => TokenKind::AmpEquals,
        TokenKind::AmpCaret => TokenKind::AmpCaret,
        TokenKind::Pipe => TokenKind::Pipe,
        TokenKind::PipePipe => TokenKind::PipePipe,
        TokenKind::PipeEquals => TokenKind::PipeEquals,
        TokenKind::Caret => TokenKind::Caret,
        TokenKind::CaretEquals => TokenKind::CaretEquals,
        TokenKind::Lt => TokenKind::Lt,
        TokenKind::LtEquals => TokenKind::LtEquals,
        TokenKind::Shl => TokenKind::Shl,
        TokenKind::LeftArrow => TokenKind::LeftArrow,
        TokenKind::Gt => TokenKind::Gt,
        TokenKind::GtEquals => TokenKind::GtEquals,
        TokenKind::Shr => TokenKind::Shr,
        TokenKind::Equals => TokenKind::Equals,
        TokenKind::EqualsEquals => TokenKind::EqualsEquals,
        TokenKind::Not => TokenKind::Not,
        TokenKind::NotEquals => TokenKind::NotEquals,
        TokenKind::Keyword(kk) => TokenKind::Keyword(*kk),
        TokenKind::Ident(s) => TokenKind::Ident(s.clone()),
        TokenKind::Literal(Literal::Str(s)) => TokenKind::Literal(Literal::Str(s.clone())),
        TokenKind::Literal(Literal::Int(s)) => TokenKind::Literal(Literal::Int(s.clone())),
        TokenKind::Whitespace => TokenKind::Whitespace,
    }
}

impl Parser {
    /// Whether token `i` can start a type: a name, `[`, `*`, `<-`, or one of
    /// the type-literal keywords. A decision only; the contracts of the
    /// parse functions do not depend on it.
    fn starts_type(&self, i: usize) -> bool {
        if i >= self.toks.len() {
            return false;
        }
        let t = &self.toks[i];
        match &t.kind {
            TokenKind::Ident(_) => true,
            TokenKind::OpenDelim(DelimToken::Bracket) => true,
            TokenKind::Star => true,
            TokenKind::LeftArrow => true,
            TokenKind::Keyword(Keyword::Func) => true,
            TokenKind::Keyword(Keyword::Interface) => true,
            TokenKind::Keyword(Keyword::MapKw) => true,
            TokenKind::Keyword(Keyword::Chan) => true,
            TokenKind::Keyword(Keyword::Struct) => true,
            _ => false,
        }
    }

    /// Parse a type starting at `i`, dispatching on the leading token.
    #[verifier::rlimit(40)]
    fn parse_type(&self, i: usize) -> (r: Result<(Type, usize), ParseError>)
        requires
            i <= self.n(),
        ensures
            match r {
                Ok((t, j)) => i < j <= self.n() && type_match(
                    t,
                    self.vts().subrange(i as int, j as int),
                ),
                Err(e) => self.err_in_stream(e),
            },
        decreases self.toks@.len() - i, 15int,
    {
        let ghost v = self.vts();
        if i >= self.toks.len() {
            return Err(self.error(i, Expected::TypeForm));
        }
        let t0 = &self.toks[i];
        match &t0.kind {
            TokenKind::Ident(s) => {
                if self.at_punct(i + 1, Punct::Dot) {
                    let (name, j) = match self.parse_ident(i + 2) {
                        Ok(x) => x,
                        Err(e) => { return Err(e); },
                    };
                    let ty = Type::Plain(
                        MaybeQualifiedIdent { package: Some(s.clone()), name },
                    );
                    proof {
                        assert(v.subrange(i as int, i + 3) =~= seq![
                            v[i as int],
                            v[i + 1],
                            v[i + 2],
                        ]);
                    }
                    Ok((ty, i + 3))
                } else {
                    let ty = Type::Plain(MaybeQualifiedIdent { package: None, name: s.clone() });
                    proof {
                        assert(v.subrange(i as int, i + 1) =~= seq![v[i as int]]);
                    }
                    Ok((ty, i + 1))
                }
            },
            TokenKind::OpenDelim(DelimToken::Bracket) => {
                if self.at_punct(i + 1, Punct::CloseBracket) {
                    let (elem, j) = match self.parse_type(i + 2) {
                        Ok(x) => x,
                        Err(e) => { return Err(e); },
                    };
                    let ty = Type::Literal(TypeLiteral::Slice(SliceType { elem: Box::new(elem) }));
                    proof {
                        lemma_sub_sub(v, i as int, j as int, 2, j - i);
                    }
                    Ok((ty, j))
                } else {
                    let (length, j) = match self.parse_expression(i + 1) {
                        Ok(x) => x,
                        Err(e) => { return Err(e); },
                    };
                    if !self.at_punct(j, Punct::CloseBracket) {
                        return Err(self.error(
                            j,
                            Expected::ExactTok(TokenKind::CloseDelim(DelimToken::Bracket)),
                        ));
                    }
                    let (elem, j2) = match self.parse_type(j + 1) {
                        Ok(x) => x,
                        Err(e) => { return Err(e); },
                    };
                    let ty = Type::Literal(
                        TypeLiteral::Array(ArrayType { length, elem: Box::new(elem) }),
                    );
                    proof {
                        let ts = v.subrange(i as int, j2 as int);
                        lemma_sub_sub(v, i as int, j2 as int, 1, j - i);
                        lemma_sub_sub(v, i as int, j2 as int, j - i + 1, j2 - i);
                        assert(ts.subrange(1, j - i) == v.subrange(i + 1, j as int));
                        assert(type_match(ty, ts));
                    }
                    Ok((ty, j2))
                }
            },
            TokenKind::Star => {
                let (base, j) = match self.parse_type(i + 1) {
                    Ok(x) => x,
                    Err(e) => { return Err(e); },
                };
                let ty = Type::Literal(TypeLiteral::Pointer(PointerType { base: Box::new(base) }));
                proof {
                    lemma_sub_sub(v, i as int, j as int, 1, j - i);
                }
                Ok((ty, j))
            },
            TokenKind::LeftArrow => {
                if !self.at_keyword(i + 1, Keyword::Chan) {
                    return Err(self.error(i, Expected::TypeForm));
                }
                let (elem, j) = match self.parse_type(i + 2) {
                    Ok(x) => x,
                    Err(e) => { return Err(e); },
                };
                let ty = Type::Literal(
                    TypeLiteral::Chan(ChanType { dir: ChanDir::ReceiveOnly, elem: Box::new(elem) }),
                );
                proof {
                    lemma_sub_sub(v, i as int, j as int, 2, j - i);
                }
                Ok((ty, j))
            },
            TokenKind::Keyword(Keyword::Chan) => {
                if self.at_punct(i + 1, Punct::LeftArrow) {
                    let (elem, j) = match self.parse_type(i + 2) {
                        Ok(x) => x,
                        Err(e) => { return Err(e); },
                    };
                    let ty = Type::Literal(
                        TypeLiteral::Chan(
                            ChanType { dir: ChanDir::SendOnly, elem: Box::new(elem) },
                        ),
                    );
                    proof {
                        lemma_sub_sub(v, i as int, j as int, 2, j - i);
                    }
                    Ok((ty, j))
                } else {
                    let (elem, j) = match self.parse_type(i + 1) {
                        Ok(x) => x,
                        Err(e) => { return Err(e); },
                    };
                    let ty = Type::Literal(
                        TypeLiteral::Chan(
                            ChanType { dir: ChanDir::Bidirectional, elem: Box::new(elem) },
                        ),
                    );
                    proof {
                        lemma_sub_sub(v, i as int, j as int, 1, j - i);
                    }
                    Ok((ty, j))
                }
            },
            TokenKind::Keyword(Keyword::MapKw) => {
                if !self.at_punct(i + 1, Punct::OpenBracket) {
                    return Err(self.error(
                        i + 1,
                        Expected::ExactTok(TokenKind::OpenDelim(DelimToken::Bracket)),
                    ));
                }
                let (key, j) = match self.parse_type(i + 2) {
                    Ok(x) => x,
                    Err(e) => { return Err(e); },
                };
                if !self.at_punct(j, Punct::CloseBracket) {
                    return Err(self.error(
                        j,
                        Expected::ExactTok(TokenKind::CloseDelim(DelimToken::Bracket)),
                    ));
                }
                let (value, j2) = match self.parse_type(j + 1) {
                    Ok(x) => x,
                    Err(e) => { return Err(e); },
                };
                let ty = Type::Literal(
                    TypeLiteral::MapLit(MapType { key: Box::new(key), value: Box::new(value) }),
                );
                proof {
                    let ts = v.subrange(i as int, j2 as int);
                    lemma_sub_sub(v, i as int, j2 as int, 2, j - i);
                    lemma_sub_sub(v, i as int, j2 as int, j - i + 1, j2 - i);
                    assert(type_match(ty, ts));
                }
                Ok((ty, j2))
            },
            TokenKind::Keyword(Keyword::Func) => {
                let (signature, j) = match self.parse_signature(i + 1) {
                    Ok(x) => x,
                    Err(e) => { return Err(e); },
                };
                let ty = Type::Literal(TypeLiteral::Function(FuncType { signature }));
                proof {
                    lemma_sub_sub(v, i as int, j as int, 1, j - i);
                }
                Ok((ty, j))
            },
            TokenKind::Keyword(Keyword::Struct) => {
                if !self.at_punct(i + 1, Punct::OpenBrace) {
                    return Err(self.error(
                        i + 1,
                        Expected::ExactTok(TokenKind::OpenDelim(DelimToken::Brace)),
                    ));
                }
                if !self.at_punct(i + 2, Punct::CloseBrace) {
                    return Err(self.error(
                        i + 2,
                        Expected::ExactTok(TokenKind::CloseDelim(DelimToken::Brace)),
                    ));
                }
                let ty = Type::Literal(TypeLiteral::Struct(StructType { fields: Vec::new() }));
                proof {
                    assert(v.subrange(i as int, i + 3) =~= seq![v[i as int], v[i + 1], v[i + 2]]);
                }
                Ok((ty, i + 3))
            },
            TokenKind::Keyword(Keyword::Interface) => {
                if !self.at_punct(i + 1, Punct::OpenBrace) {
                    return Err(self.error(
                        i + 1,
                        Expected::ExactTok(TokenKind::OpenDelim(DelimToken::Brace)),
                    ));
                }
                if !self.at_punct(i + 2, Punct::CloseBrace) {
                    return Err(self.error(
                        i + 2,
                        Expected::ExactTok(TokenKind::CloseDelim(DelimToken::Brace)),
                    ));
                }
                let ty = Type::Literal(
                    TypeLiteral::Interface(InterfaceType { methods: Vec::new() }),
                );
                proof {
                    assert(v.subrange(i as int, i + 3) =~= seq![v[i as int], v[i + 1], v[i + 2]]);
                }
                Ok((ty, i + 3))
            },
            _ => Err(self.error(i, Expected::TypeForm)),
        }
    }

    /// Parse one parameter declaration: `name Type` or a bare `Type`.
    fn parse_param_decl(&self, i: usize) -> (r: Result<(ParameterDecl, usize), ParseError>)
        requires
            i <= self.n(),
        ensures
            match r {
                Ok((pd, j)) => i < j <= self.n() && param_decl_match(
                    pd,
                    self.vts().subrange(i as int, j as int),
                ),
                Err(e) => self.err_in_stream(e),
            },
        decreases self.toks@.len() - i, 16int,
    {
        let ghost v = self.vts();
        let mut named = false;
        if i < self.toks.len() {
            let t = &self.toks[i];
            match &t.kind {
                TokenKind::Ident(_) => {
                    named = self.starts_type(i + 1);
                },
                _ => {},
            }
        }
        if named {
            let (name, j) = match self.parse_ident(i) {
                Ok(x) => x,
                Err(e) => { return Err(e); },
            };
            let (typ, j2) = match self.parse_type(j) {
                Ok(x) => x,
                Err(e) => { return Err(e); },
            };
            let mut identifiers: Vec<String> = Vec::new();
            identifiers.push(name);
            let pd = ParameterDecl { identifiers, typ };
            proof {
                lemma_sub_sub(v, i as int, j2 as int, 1, j2 - i);
                assert(param_decl_match(pd, v.subrange(i as int, j2 as int)));
            }
            Ok((pd, j2))
        } else {
            let (typ, j) = match self.parse_type(i) {
                Ok(x) => x,
                Err(e) => { return Err(e); },
            };
            let pd = ParameterDecl { identifiers: Vec::new(), typ };
            Ok((pd, j))
        }
    }

    /// Parse a parenthesized, comma-separated parameter list.
    #[verifier::rlimit(40)]
    fn parse_params(&self, i: usize) -> (r: Result<(Parameters, usize), ParseError>)
        requires
            i <= self.n(),
        ensures
            match r {
                Ok((ps, j)) => i < j <= self.n() && params_match(
                    ps,
                    self.vts().subrange(i as int, j as int),
                ),
                Err(e) => self.err_in_stream(e),
            },
        decreases self.toks@.len() - i, 13int,
    {
        let tlen = self.toks.len();
        let ghost v = self.vts();
        if !self.at_punct(i, Punct::OpenParen) {
            return Err(self.error(i, Expected::ExactTok(TokenKind::OpenDelim(DelimToken::Paren))));
        }
        if self.at_punct(i + 1, Punct::CloseParen) {
            let ps = Parameters::empty();
            proof {
                let ts = v.subrange(i as int, i + 2);
                assert(ts =~= seq![v[i as int], v[i + 1]]);
                assert(ts.subrange(1, 1) =~= Seq::<TokView>::empty());
                assert(params_match(ps, ts));
            }
            return Ok((ps, i + 2));
        }
        let (pd0, first_j) = match self.parse_param_decl(i + 1) {
            Ok(x) => x,
            Err(e) => { return Err(e); },
        };
        let mut decls: Vec<ParameterDecl> = Vec::new();
        decls.push(pd0);
        let mut j = first_j;
        proof {
            assert(decls@.len() == 1);
            assert(param_list_match(decls@, v.subrange(i + 1, j as int)));
        }
        loop
            invariant
                self.vts() == v,
                self.toks@.len() <= usize::MAX,
                decls@.len() >= 1,
                i + 1 < j <= self.n(),
                v[i as int] == TokView::OpenDelim(DelimToken::Paren),
                param_list_match(decls@, v.subrange(i + 1, j as int)),
            decreases self.toks@.len() - j,
        {
            if self.at_punct(j, Punct::Comma) {
                let ghost old_decls = decls@;
                let ghost old_j = j as int;
                let (pd, j2) = match self.parse_param_decl(j + 1) {
                    Ok(x) => x,
                    Err(e) => { return Err(e); },
                };
                proof {
                    lemma_param_list_push(
                        old_decls,
                        v.subrange(i + 1, old_j),
                        pd,
                        v.subrange(old_j + 1, j2 as int),
                    );
                    assert(v.subrange(i + 1, j2 as int) =~= v.subrange(i + 1, old_j) + seq![
                        v[old_j],
                    ] + v.subrange(old_j + 1, j2 as int));
                }
                decls.push(pd);
                j = j2;
            } else if self.at_punct(j, Punct::CloseParen) {
                let ps = Parameters { decls };
                proof {
                    let ts = v.subrange(i as int, j + 1);
                    lemma_sub_sub(v, i as int, j + 1, 1, j - i);
                    assert(params_match(ps, ts));
                }
                return Ok((ps, j + 1));
            } else {
                return Err(self.error(
                    j,
                    Expected::ExactTok(TokenKind::CloseDelim(DelimToken::Paren)),
                ));
            }
        }
    }

    /// Parse a signature: the parameters, then an optional result (a bare
    /// type or a parenthesized list).
    #[verifier::rlimit(40)]
    fn parse_signature(&self, i: usize) -> (r: Result<(FuncSignature, usize), ParseError>)
        requires
            i <= self.n(),
        ensures
            match r {
                Ok((sig, j)) => i < j <= self.n() && signature_match(
                    sig,
                    self.vts().subrange(i as int, j as int),
                ),
                Err(e) => self.err_in_stream(e),
            },
        decreases self.toks@.len() - i, 14int,
    {
        let ghost v = self.vts();
        let (parameters, j) = match self.parse_params(i) {
            Ok(x) => x,
            Err(e) => { return Err(e); },
        };
        if self.at_punct(j, Punct::OpenParen) {
            let (result, j2) = match self.parse_params(j) {
                Ok(x) => x,
                Err(e) => { return Err(e); },
            };
            let sig = FuncSignature { parameters, result };
            proof {
                let ts = v.subrange(i as int, j2 as int);
                lemma_sub_sub(v, i as int, j2 as int, 0, j - i);
                lemma_sub_sub(v, i as int, j2 as int, j - i, j2 - i);
                assert(signature_match(sig, ts));
            }
            Ok((sig, j2))
        } else if self.starts_type(j) {
            let (t, j2) = match self.parse_type(j) {
                Ok(x) => x,
                Err(e) => { return Err(e); },
            };
            let sig = FuncSignature { parameters, result: Parameters::from_single_type(t) };
            proof {
                let ts = v.subrange(i as int, j2 as int);
                lemma_sub_sub(v, i as int, j2 as int, 0, j - i);
                lemma_sub_sub(v, i as int, j2 as int, j - i, j2 - i);
                assert(signature_match(sig, ts));
            }
            Ok((sig, j2))
        } else {
            let sig = FuncSignature { parameters, result: Parameters::empty() };
            proof {
                let ts = v.subrange(i as int, j as int);
                lemma_sub_sub(v, i as int, j as int, 0, j - i);
                assert(signature_match(sig, ts));
            }
            Ok((sig, j))
        }
    }
}

/// The precedence level of a binary operator, executable form.
fn level_of(op: BinaryOperator) -> (l: u8)
    ensures
        l as int == binop_level(op),
{
    match op {
        BinaryOperator::LogicalOr => 1,
        BinaryOperator::LogicalAnd => 2,
        BinaryOperator::Equal => 3,
        BinaryOperator::NotEqual => 3,
        BinaryOperator::Less => 3,
        BinaryOperator::LessEqual => 3,
        BinaryOperator::Greater => 3,
        BinaryOperator::GreaterEqual => 3,
        BinaryOperator::Add => 4,
        BinaryOperator::Subtract => 4,
        BinaryOperator::BitOr => 4,
        BinaryOperator::BitXor => 4,
        BinaryOperator::Multiply => 5,
        BinaryOperator::Divide => 5,
        BinaryOperator::Modulo => 5,
        BinaryOperator::ShiftLeft => 5,
        BinaryOperator::ShiftRight => 5,
        BinaryOperator::BitAnd => 5,
        BinaryOperator::BitClear => 5,
    }
}

impl Parser {
    /// The binary operator at `i`, if it has exactly the given precedence
    /// level.
    fn binop_at(&self, i: usize, level: u8) -> (r: Option<BinaryOperator>)
        ensures
            match r {
                Some(op) => i < self.n() && self.vts()[i as int] == binop_token(op) && binop_level(
                    op,
                ) == level as int,
                None => true,
            },
    {
        if i >= self.toks.len() {
            return None;
        }
        let t = &self.toks[i];
        let op = match &t.kind {
            TokenKind::PipePipe => BinaryOperator::LogicalOr,
            TokenKind::AmpAmp => BinaryOperator::LogicalAnd,
            TokenKind::EqualsEquals => BinaryOperator::Equal,
            TokenKind::NotEquals => BinaryOperator::NotEqual,
            TokenKind::Lt => BinaryOperator::Less,
            TokenKind::LtEquals => BinaryOperator::LessEqual,
            TokenKind::Gt => BinaryOperator::Greater,
            TokenKind::GtEquals => BinaryOperator::GreaterEqual,
            TokenKind::Plus => BinaryOperator::Add,
            TokenKind::Minus => BinaryOperator::Subtract,
            TokenKind::Pipe => BinaryOperator::BitOr,
            TokenKind::Caret => BinaryOperator::BitXor,
            TokenKind::Star => BinaryOperator::Multiply,
            TokenKind::Slash => BinaryOperator::Divide,
            TokenKind::Percent => BinaryOperator::Modulo,
            TokenKind::Shl => BinaryOperator::ShiftLeft,
            TokenKind::Shr => BinaryOperator::ShiftRight,
            TokenKind::Amp => BinaryOperator::BitAnd,
            TokenKind::AmpCaret => BinaryOperator::BitClear,
            _ => {
                return None;
            },
        };
        if level_of(op) == level {
            Some(op)
        } else {
            None
        }
    }

    /// The prefix unary operator at `i`, if any.
    fn unop_at(&self, i: usize) -> (r: Option<UnaryOperator>)
        ensures
            match r {
                Some(op) => i < self.n() && self.vts()[i as int] == unop_token(op),
                None => true,
            },
    {
        if i >= self.toks.len() {
            return None;
        }
        let t = &self.toks[i];
        match &t.kind {
            TokenKind::Plus => Some(UnaryOperator::Plus),
            TokenKind::Minus => Some(UnaryOperator::Minus),
            TokenKind::Not => Some(UnaryOperator::Not),
            TokenKind::Caret => Some(UnaryOperator::Caret),
            TokenKind::Star => Some(UnaryOperator::Star),
            TokenKind::Amp => Some(UnaryOperator::Amp),
            TokenKind::LeftArrow => Some(UnaryOperator::Receive),
            _ => None,
        }
    }

    /// Parse an expression: precedence climbing from the loosest level.
    pub fn parse_expression(&self, i: usize) -> (r: Result<(Expression, usize), ParseError>)
        requires
            i <= self.n(),
        ensures
            match r {
                Ok((e, j)) => i < j <= self.n() && expr_match(
                    e,
                    self.vts().subrange(i as int, j as int),
                ),
                Err(e) => self.err_in_stream(e),
            },
            (i < self.n() && lone_operand(self.vts()[i as int]) && plain_suffix_chain(
                self.vts(),
                i + 1,
            )) ==> (r is Ok && r->Ok_0.1 == self.n()),
            (i + 1 < self.n() && lone_operand(self.vts()[i as int]) && self.vts()[i + 1]
                == TokView::CloseDelim(DelimToken::Bracket)) ==> (r is Ok && r->Ok_0.1 == i + 1),
        decreases self.toks@.len() - i, 29int,
    {
        self.parse_binary_level(i, 1)
    }

    /// Parse binary operators of precedence `level` and tighter, folding
    /// operators of equal level left-associatively.
    fn parse_binary_level(&self, i: usize, level: u8) -> (r: Result<
        (Expression, usize),
        ParseError,
    >)
        requires
            i <= self.n(),
            1 <= level <= 6,
        ensures
            match r {
                Ok((e, j)) => i < j <= self.n() && expr_match_at(
                    e,
                    self.vts().subrange(i as int, j as int),
                    level as int,
                ),
                Err(e) => self.err_in_stream(e),
            },
            (i < self.n() && lone_operand(self.vts()[i as int]) && plain_suffix_chain(
                self.vts(),
                i + 1,
            )) ==> (r is Ok && r->Ok_0.1 == self.n()),
            (i + 1 < self.n() && lone_operand(self.vts()[i as int]) && self.vts()[i + 1]
                == TokView::CloseDelim(DelimToken::Bracket)) ==> (r is Ok && r->Ok_0.1 == i + 1),
        decreases self.toks@.len() - i, 28int - level,
    {
        let tlen = self.toks.len();
        let ghost v = self.vts();
        if level >= 6 {
            let (u, j) = match self.parse_unary(i) {
                Ok(x) => x,
                Err(e) => { return Err(e); },
            };
            let e = Expression::UnaryExpr(u);
            return Ok((e, j));
        }
        let (first, first_j) = match self.parse_binary_level(i, level + 1) {
            Ok(x) => x,
            Err(e) => { return Err(e); },
        };
        proof {
            lemma_expr_weaken(first, v.subrange(i as int, first_j as int), level as int);
        }
        let mut lhs = first;
        let mut j = first_j;
        loop
            invariant
                self.vts() == v,
                self.toks@.len() <= usize::MAX,
                i < j <= self.n(),
                1 <= level <= 5,
                expr_match_at(lhs, v.subrange(i as int, j as int), level as int),
                (i < self.n() && lone_operand(v[i as int]) && plain_suffix_chain(v, i + 1))
                    ==> j as int == self.n(),
                (i + 1 < self.n() && lone_operand(v[i as int]) && v[i + 1]
                    == TokView::CloseDelim(DelimToken::Bracket)) ==> j as int == i + 1,
            decreases self.toks@.len() - j,
        {
            match self.binop_at(j, level) {
                Some(op) => {
                    let (rhs, j2) = match self.parse_binary_level(j + 1, level + 1) {
                        Ok(x) => x,
                        Err(e) => { return Err(e); },
                    };
                    let ghost old_j = j as int;
                    let folded = Expression::BinaryOperation(op, Box::new(lhs), Box::new(rhs));
                    proof {
                        let ts = v.subrange(i as int, j2 as int);
                        lemma_sub_sub(v, i as int, j2 as int, 0, old_j - i);
                        lemma_sub_sub(v, i as int, j2 as int, old_j - i + 1, j2 - i);
                        assert(ts[old_j - i] == v[old_j]);
                        assert(expr_match_at(folded, ts, level as int));
                    }
                    lhs = folded;
                    j = j2;
                },
                None => {
                    return Ok((lhs, j));
                },
            }
        }
    }

    /// Parse a unary expression: a prefix-operator loop ending in a primary
    /// expression.
    fn parse_unary(&self, i: usize) -> (r: Result<(UnaryExpr, usize), ParseError>)
        requires
            i <= self.n(),
        ensures
            match r {
                Ok((u, j)) => i < j <= self.n() && unary_match(
                    u,
                    self.vts().subrange(i as int, j as int),
                ),
                Err(e) => self.err_in_stream(e),
            },
            (i < self.n() && lone_operand(self.vts()[i as int]) && plain_suffix_chain(
                self.vts(),
                i + 1,
            )) ==> (r is Ok && r->Ok_0.1 == self.n()),
            (i + 1 < self.n() && lone_operand(self.vts()[i as int]) && self.vts()[i + 1]
                == TokView::CloseDelim(DelimToken::Bracket)) ==> (r is Ok && r->Ok_0.1 == i + 1),
        decreases self.toks@.len() - i, 20int,
    {
        let tlen = self.toks.len();
        let ghost v = self.vts();
        match self.unop_at(i) {
            Some(op) => {
                let (inner, j) = match self.parse_unary(i + 1) {
                    Ok(x) => x,
                    Err(e) => { return Err(e); },
                };
                let u = UnaryExpr::UnaryOperation(op, Box::new(inner));
                proof {
                    let ts = v.subrange(i as int, j as int);
                    lemma_sub_sub(v, i as int, j as int, 1, j - i);
                    assert(ts[0] == v[i as int]);
                    assert(unary_match(u, ts));
                }
                Ok((u, j))
            },
            None => {
                let (p, j) = match self.parse_primary(i) {
                    Ok(x) => x,
                    Err(e) => { return Err(e); },
                };
                Ok((UnaryExpr::PrimaryExpr(Box::new(p)), j))
            },
        }
    }

    /// Whether a colon appears before the matching close bracket: decides
    /// slicing against indexing. A decision only.
    fn colon_before_close(&self, i: usize) -> (r: bool)
        requires
            i <= self.n(),
        ensures
            (i + 1 < self.n() && lone_operand(self.vts()[i as int]) && self.vts()[i + 1]
                == TokView::CloseDelim(DelimToken::Bracket)) ==> r == false,
    {
        let mut j = i;
        let mut depth: usize = 0;
        while j < self.toks.len()
            invariant
                i <= j <= self.toks@.len(),
                (i + 1 < self.n() && lone_operand(self.vts()[i as int]) && self.vts()[i + 1]
                    == TokView::CloseDelim(DelimToken::Bracket)) ==> (j as int <= i + 1 && depth
                    == 0),
            decreases self.toks@.len() - j,
        {
            let t = &self.toks[j];
            match &t.kind {
                TokenKind::OpenDelim(_) => {
                    if depth < usize::MAX {
                        depth = depth + 1;
                    }
                },
                TokenKind::CloseDelim(d) => {
                    if depth == 0 {
                        return false;
                    }
                    depth = depth - 1;
                },
                TokenKind::Colon => {
                    if depth == 0 {
                        return true;
                    }
                },
                _ => {},
            }
            j = j + 1;
        }
        false
    }

    /// Parse a primary expression: an operand, then a chain of suffix
    /// operations, preserving left-to-right application order.
    #[verifier::rlimit(40)]
    pub fn parse_primary(&self, i: usize) -> (r: Result<(PrimaryExpr, usize), ParseError>)
        requires
            i <= self.n(),
        ensures
            match r {
                Ok((p, j)) => i < j <= self.n() && primary_match(
                    p,
                    self.vts().subrange(i as int, j as int),
                ) && !(p is Conversion),
                Err(e) => self.err_in_stream(e),
            },
            (i < self.n() && lone_operand(self.vts()[i as int]) && plain_suffix_chain(
                self.vts(),
                i + 1,
            )) ==> (r is Ok && r->Ok_0.1 == self.n()),
            (i + 1 < self.n() && lone_operand(self.vts()[i as int]) && self.vts()[i + 1]
                == TokView::CloseDelim(DelimToken::Bracket)) ==> (r is Ok && r->Ok_0.1 == i + 1),
        decreases self.toks@.len() - i, 19int,
    {
        let tlen = self.toks.len();
        let ghost v = self.vts();
        let (op0, first_j) = match self.parse_operand(i) {
            Ok(x) => x,
            Err(e) => { return Err(e); },
        };
        let mut p = PrimaryExpr::Operand(op0);
        let mut j = first_j;
        loop
            invariant
                self.vts() == v,
                self.toks@.len() <= usize::MAX,
                i < j <= self.n(),
                primary_match(p, v.subrange(i as int, j as int)),
                !(p is Conversion),
                (i < self.n() && lone_operand(v[i as int]) && plain_suffix_chain(v, i + 1))
                    ==> plain_suffix_chain(v, j as int),
                (i + 1 < self.n() && lone_operand(v[i as int]) && v[i + 1]
                    == TokView::CloseDelim(DelimToken::Bracket)) ==> j as int == i + 1,
            decreases self.toks@.len() - j,
        {
            let ghost old_j = j as int;
            if self.at_punct(j, Punct::Dot) {
                if self.at_punct(j + 1, Punct::OpenParen) {
                    let (t, j2) = match self.parse_type(j + 2) {
                        Ok(x) => x,
                        Err(e) => { return Err(e); },
                    };
                    if !self.at_punct(j2, Punct::CloseParen) {
                        return Err(self.error(
                            j2,
                            Expected::ExactTok(TokenKind::CloseDelim(DelimToken::Paren)),
                        ));
                    }
                    let next = PrimaryExpr::TypeAssertion(Box::new(p), t);
                    proof {
                        let ts = v.subrange(i as int, j2 + 1);
                        lemma_sub_sub(v, i as int, j2 + 1, 0, old_j - i);
                        lemma_sub_sub(v, i as int, j2 + 1, old_j - i + 2, j2 - i);
                        assert(ts[old_j - i] == v[old_j]);
                        assert(ts[old_j - i + 1] == v[old_j + 1]);
                        assert(ts[ts.len() - 1] == v[j2 as int]);
                        assert(primary_match(next, ts));
                    }
                    p = next;
                    j = j2 + 1;
                } else {
                    let (name, j2) = match self.parse_ident(j + 1) {
                        Ok(x) => x,
                        Err(_) => {
                            return Err(self.error(j + 1, Expected::SelectorForm));
                        },
                    };
                    let next = PrimaryExpr::Selection(Box::new(p), name);
                    proof {
                        let ts = v.subrange(i as int, j2 as int);
                        lemma_sub_sub(v, i as int, j2 as int, 0, old_j - i);
                        assert(ts[ts.len() - 2] == v[old_j]);
                        assert(ts[ts.len() - 1] == v[old_j + 1]);
                        assert(primary_match(next, ts));
                    }
                    p = next;
                    j = j2;
                }
            } else if self.at_punct(j, Punct::OpenBracket) {
                if self.colon_before_close(j + 1) {
                    let (sl, j2) = match self.parse_slice_body(j + 1) {
                        Ok(x) => x,
                        Err(e) => { return Err(e); },
                    };
                    let next = PrimaryExpr::Slicing(Box::new(p), sl);
                    proof {
                        let ts = v.subrange(i as int, j2 as int);
                        lemma_sub_sub(v, i as int, j2 as int, 0, old_j - i);
                        lemma_sub_sub(v, i as int, j2 as int, old_j - i + 1, j2 - i - 1);
                        assert(ts[old_j - i] == v[old_j]);
                        assert(ts[ts.len() - 1] == v[j2 - 1]);
                        assert(primary_match(next, ts));
                    }
                    p = next;
                    j = j2;
                } else {
                    let (e, j2) = match self.parse_expression(j + 1) {
                        Ok(x) => x,
                        Err(e) => { return Err(e); },
                    };
                    if !self.at_punct(j2, Punct::CloseBracket) {
                        return Err(self.error(
                            j2,
                            Expected::ExactTok(TokenKind::CloseDelim(DelimToken::Bracket)),
                        ));
                    }
                    let next = PrimaryExpr::Indexing(Box::new(p), e);
                    proof {
                        let ts = v.subrange(i as int, j2 + 1);
                        lemma_sub_sub(v, i as int, j2 + 1, 0, old_j - i);
                        lemma_sub_sub(v, i as int, j2 + 1, old_j - i + 1, j2 - i);
                        assert(ts[old_j - i] == v[old_j]);
                        assert(ts[ts.len() - 1] == v[j2 as int]);
                        assert(primary_match(next, ts));
                    }
                    p = next;
                    j = j2 + 1;
                }
            } else if self.at_punct(j, Punct::OpenParen) {
                let (args, j2) = match self.parse_args(j + 1) {
                    Ok(x) => x,
                    Err(e) => { return Err(e); },
                };
                let next = PrimaryExpr::FunctionCall(Box::new(p), args);
                proof {
                    let ts = v.subrange(i as int, j2 as int);
                    lemma_sub_sub(v, i as int, j2 as int, 0, old_j - i);
                    lemma_sub_sub(v, i as int, j2 as int, old_j - i + 1, j2 - i - 1);
                    assert(ts[old_j - i] == v[old_j]);
                    assert(ts[ts.len() - 1] == v[j2 - 1]);
                    assert(primary_match(next, ts));
                }
                p = next;
                j = j2;
            } else {
                return Ok((p, j));
            }
        }
    }

    /// Parse a base operand: a literal, a name, or a parenthesized
    /// expression.
    fn parse_operand(&self, i: usize) -> (r: Result<(Operand, usize), ParseError>)
        requires
            i <= self.n(),
        ensures
            match r {
                Ok((o, j)) => i < j <= self.n() && operand_match(
                    o,
                    self.vts().subrange(i as int, j as int),
                ),
                Err(e) => self.err_in_stream(e),
            },
            (i < self.n() && lone_operand(self.vts()[i as int])) ==> (r is Ok && r->Ok_0.1 == i
                + 1),
        decreases self.toks@.len() - i, 18int,
    {
        let ghost v = self.vts();
        if i < self.toks.len() {
            let t = &self.toks[i];
            match &t.kind {
                TokenKind::Ident(s) => {
                    let o = Operand {
                        kind: OperandKind::Name(
                            MaybeQualifiedIdent { package: None, name: s.clone() },
                        ),
                    };
                    proof {
                        assert(v.subrange(i as int, i + 1) =~= seq![v[i as int]]);
                    }
                    return Ok((o, i + 1));
                },
                TokenKind::Literal(Literal::Str(s)) => {
                    let o = Operand { kind: OperandKind::Lit(Literal::Str(s.clone())) };
                    proof {
                        assert(v.subrange(i as int, i + 1) =~= seq![v[i as int]]);
                    }
                    return Ok((o, i + 1));
                },
                TokenKind::Literal(Literal::Int(s)) => {
                    let o = Operand { kind: OperandKind::Lit(Literal::Int(s.clone())) };
                    proof {
                        assert(v.subrange(i as int, i + 1) =~= seq![v[i as int]]);
                    }
                    return Ok((o, i + 1));
                },
                TokenKind::OpenDelim(DelimToken::Paren) => {
                    let (e, j) = match self.parse_expression(i + 1) {
                        Ok(x) => x,
                        Err(e) => { return Err(e); },
                    };
                    if !self.at_punct(j, Punct::CloseParen) {
                        return Err(self.error(
                            j,
                            Expected::ExactTok(TokenKind::CloseDelim(DelimToken::Paren)),
                        ));
                    }
                    let o = Operand { kind: OperandKind::Parenthesized(Box::new(e)) };
                    proof {
                        let ts = v.subrange(i as int, j + 1);
                        lemma_sub_sub(v, i as int, j + 1, 1, j - i);
                        assert(ts[0] == v[i as int]);
                        assert(ts[ts.len() - 1] == v[j as int]);
                        assert(operand_match(o, ts));
                    }
                    return Ok((o, j + 1));
                },
                _ => {},
            }
        }
        Err(self.error(i, Expected::OperandForm))
    }

    /// Parse a comma-separated argument list, starting just after the `(`
    /// and consuming through the `)`.
    fn parse_args(&self, i: usize) -> (r: Result<(Vec<Argument>, usize), ParseError>)
        requires
            i <= self.n(),
        ensures
            match r {
                Ok((args, j)) => i < j <= self.n() && self.vts()[j - 1] == TokView::CloseDelim(
                    DelimToken::Paren,
                ) && arg_list_match(args@, self.vts().subrange(i as int, j - 1)),
                Err(e) => self.err_in_stream(e),
            },
            (i < self.n() && self.vts()[i as int] == TokView::CloseDelim(DelimToken::Paren)) ==> (
            r is Ok && r->Ok_0.1 == i + 1),
        decreases self.toks@.len() - i, 30int,
    {
        let tlen = self.toks.len();
        let ghost v = self.vts();
        if self.at_punct(i, Punct::CloseParen) {
            let args: Vec<Argument> = Vec::new();
            proof {
                assert(v.subrange(i as int, i as int) =~= Seq::<TokView>::empty());
            }
            return Ok((args, i + 1));
        }
        let (e0, first_j) = match self.parse_expression(i) {
            Ok(x) => x,
            Err(e) => { return Err(e); },
        };
        let mut args: Vec<Argument> = Vec::new();
        args.push(Argument { expr: e0 });
        let mut j = first_j;
        proof {
            assert(args@.len() == 1);
            assert(arg_list_match(args@, v.subrange(i as int, j as int)));
        }
        loop
            invariant
                self.vts() == v,
                self.toks@.len() <= usize::MAX,
                args@.len() >= 1,
                i < j <= self.n(),
                arg_list_match(args@, v.subrange(i as int, j as int)),
                !(i < self.n() && v[i as int] == TokView::CloseDelim(DelimToken::Paren)),
            decreases self.toks@.len() - j,
        {
            if self.at_punct(j, Punct::Comma) {
                let ghost old_args = args@;
                let ghost old_j = j as int;
                let (e, j2) = match self.parse_expression(j + 1) {
                    Ok(x) => x,
                    Err(e) => { return Err(e); },
                };
                let a = Argument { expr: e };
                proof {
                    lemma_arg_list_push(
                        old_args,
                        v.subrange(i as int, old_j),
                        a,
                        v.subrange(old_j + 1, j2 as int),
                    );
                    assert(v.subrange(i as int, j2 as int) =~= v.subrange(i as int, old_j) + seq![
                        v[old_j],
                    ] + v.subrange(old_j + 1, j2 as int));
                }
                args.push(a);
                j = j2;
            } else if self.at_punct(j, Punct::CloseParen) {
                return Ok((args, j + 1));
            } else {
                return Err(self.error(
                    j,
                    Expected::ExactTok(TokenKind::CloseDelim(DelimToken::Paren)),
                ));
            }
        }
    }

    /// Parse slice bounds, starting just after the `[` and consuming through
    /// the `]`. The three-index form requires the low and high bounds.
    #[verifier::rlimit(40)]
    fn parse_slice_body(&self, i: usize) -> (r: Result<(Slice, usize), ParseError>)
        requires
            i <= self.n(),
        ensures
            match r {
                Ok((sl, j)) => i < j <= self.n() && self.vts()[j - 1] == TokView::CloseDelim(
                    DelimToken::Bracket,
                ) && slice_match(sl, self.vts().subrange(i as int, j - 1)),
                Err(e) => self.err_in_stream(e),
            },
        decreases self.toks@.len() - i, 30int,
    {
        let tlen = self.toks.len();
        let ghost v = self.vts();
        let mut lo: Option<Expression> = None;
        let mut j = i;
        if !self.at_punct(i, Punct::Colon) {
            let (e, j1) = match self.parse_expression(i) {
                Ok(x) => x,
                Err(e) => { return Err(e); },
            };
            lo = Some(e);
            j = j1;
        }
        if !self.at_punct(j, Punct::Colon) {
            return Err(self.error(j, Expected::ExactTok(TokenKind::Colon)));
        }
        let cpos = j;
        j = j + 1;
        let mut hi: Option<Expression> = None;
        if !self.at_punct(j, Punct::CloseBracket) && !self.at_punct(j, Punct::Colon) {
            let (e, j2) = match self.parse_expression(j) {
                Ok(x) => x,
                Err(e) => { return Err(e); },
            };
            hi = Some(e);
            j = j2;
        }
        if self.at_punct(j, Punct::Colon) {
            let ghost cpos2 = j as int;
            match (lo, hi) {
                (Some(l), Some(h)) => {
                    let (mx, j3) = match self.parse_expression(j + 1) {
                        Ok(x) => x,
                        Err(e) => { return Err(e); },
                    };
                    if !self.at_punct(j3, Punct::CloseBracket) {
                        return Err(self.error(
                            j3,
                            Expected::ExactTok(TokenKind::CloseDelim(DelimToken::Bracket)),
                        ));
                    }
                    let sl = Slice::ThreeIndex(l, h, mx);
                    proof {
                        let ts = v.subrange(i as int, j3 as int);
                        lemma_sub_sub(v, i as int, j3 as int, 0, cpos - i);
                        lemma_sub_sub(v, i as int, j3 as int, cpos - i + 1, cpos2 - i);
                        lemma_sub_sub(v, i as int, j3 as int, cpos2 - i + 1, j3 - i);
                        assert(ts[cpos - i] == v[cpos as int]);
                        assert(ts[cpos2 - i] == v[cpos2]);
                        assert(slice_match(sl, ts));
                    }
                    return Ok((sl, j3 + 1));
                },
                _ => {
                    return Err(self.error(j, Expected::SliceBound));
                },
            }
        }
        if !self.at_punct(j, Punct::CloseBracket) {
            return Err(self.error(
                j,
                Expected::ExactTok(TokenKind::CloseDelim(DelimToken::Bracket)),
            ));
        }
        let ghost glo = lo;
        let ghost ghi = hi;
        let sl = Slice::TwoIndex(lo, hi);
        proof {
            let ts = v.subrange(i as int, j as int);
            lemma_sub_sub(v, i as int, j as int, 0, cpos - i);
            lemma_sub_sub(v, i as int, j as int, cpos - i + 1, j - i);
            assert(ts[cpos - i] == v[cpos as int]);
            assert(opt_expr_match(glo, ts.subrange(0, cpos - i)));
            assert(opt_expr_match(ghi, ts.subrange(cpos - i + 1, ts.len() as int)));
            assert(slice_match(sl, ts));
        }
        Ok((sl, j + 1))
    }
}

impl Parser {
    /// Parse one import spec: `.` path, alias path, or a bare path.
    fn parse_import_spec(&self, i: usize) -> (r: Result<(ImportSpec, usize), ParseError>)
        requires
            i <= self.n(),
        ensures
            match r {
                Ok((sp, j)) => i < j <= self.n() && import_spec_match(
                    sp,
                    self.vts().subrange(i as int, j as int),
                ),
                Err(e) => self.err_in_stream(e),
            },
            (import_spec_end(self.vts(), i as int) is Some) ==> (r is Ok && r->Ok_0.1 as int
                == import_spec_end(self.vts(), i as int)->0),
        decreases self.toks@.len() - i, 44int,
    {
        let tlen = self.toks.len();
        let ghost v = self.vts();
        if self.at_punct(i, Punct::Dot) {
            let (path, j) = match self.parse_string_lit(i + 1) {
                Ok(x) => x,
                Err(e) => { return Err(e); },
            };
            let sp = ImportSpec { kind: ImportKind::Glob, path };
            proof {
                assert(v.subrange(i as int, i + 2) =~= seq![v[i as int], v[i + 1]]);
            }
            return Ok((sp, j));
        }
        if i < self.toks.len() {
            let t = &self.toks[i];
            match &t.kind {
                TokenKind::Ident(s) => {
                    let (path, j) = match self.parse_string_lit(i + 1) {
                        Ok(x) => x,
                        Err(e) => { return Err(e); },
                    };
                    let sp = ImportSpec { kind: ImportKind::Alias(s.clone()), path };
                    proof {
                        assert(v.subrange(i as int, i + 2) =~= seq![v[i as int], v[i + 1]]);
                    }
                    return Ok((sp, j));
                },
                TokenKind::Literal(Literal::Str(_)) => {
                    let (path, j) = match self.parse_string_lit(i) {
                        Ok(x) => x,
                        Err(e) => { return Err(e); },
                    };
                    let sp = ImportSpec { kind: ImportKind::Normal, path };
                    proof {
                        assert(v.subrange(i as int, i + 1) =~= seq![v[i as int]]);
                    }
                    return Ok((sp, j));
                },
                _ => {},
            }
        }
        Err(self.error(i, Expected::ImportSpecForm))
    }

    /// Parse an import declaration: `import` with a single spec or a
    /// parenthesized, semicolon-separated group (at least one spec, no
    /// trailing semicolon).
    #[verifier::rlimit(40)]
    fn parse_import_decl(&self, i: usize) -> (r: Result<(ImportDecl, usize), ParseError>)
        requires
            i <= self.n(),
        ensures
            match r {
                Ok((d, j)) => i < j <= self.n() && import_decl_match(
                    d,
                    self.vts().subrange(i as int, j as int),
                ),
                Err(e) => self.err_in_stream(e),
            },
            (import_decl_end(self.vts(), i as int) is Some) ==> (r is Ok && r->Ok_0.1 as int
                == import_decl_end(self.vts(), i as int)->0),
        decreases self.toks@.len() - i, 45int,
    {
        let tlen = self.toks.len();
        let ghost v = self.vts();
        if !self.at_keyword(i, Keyword::Import) {
            return Err(self.error(i, Expected::ExactTok(TokenKind::Keyword(Keyword::Import))));
        }
        if self.at_punct(i + 1, Punct::OpenParen) {
            let (sp0, first_j) = match self.parse_import_spec(i + 2) {
                Ok(x) => x,
                Err(e) => { return Err(e); },
            };
            let mut specs: Vec<ImportSpec> = Vec::new();
            specs.push(sp0);
            let mut j = first_j;
            proof {
                assert(specs@.len() == 1);
                assert(import_spec_list_match(specs@, v.subrange(i + 2, j as int)));
            }
            loop
                invariant
                    self.vts() == v,
                    self.toks@.len() <= usize::MAX,
                    specs@.len() >= 1,
                    i + 2 < j <= self.n(),
                    v[i as int] == TokView::Keyword(Keyword::Import),
                    v[i + 1] == TokView::OpenDelim(DelimToken::Paren),
                    import_spec_list_match(specs@, v.subrange(i + 2, j as int)),
                    (import_decl_end(v, i as int) is Some) ==> (import_group_end(v, j as int)
                        is Some && import_group_end(v, j as int)->0 == import_decl_end(
                        v,
                        i as int,
                    )->0),
                decreases self.toks@.len() - j,
            {
                if self.at_punct(j, Punct::Semicolon) {
                    let ghost old_specs = specs@;
                    let ghost old_j = j as int;
                    let (sp, j2) = match self.parse_import_spec(j + 1) {
                        Ok(x) => x,
                        Err(e) => { return Err(e); },
                    };
                    proof {
                        lemma_import_spec_list_push(
                            old_specs,
                            v.subrange(i + 2, old_j),
                            sp,
                            v.subrange(old_j + 1, j2 as int),
                        );
                        assert(v.subrange(i + 2, j2 as int) =~= v.subrange(i + 2, old_j) + seq![
                            v[old_j],
                        ] + v.subrange(old_j + 1, j2 as int));
                    }
                    specs.push(sp);
                    j = j2;
                } else if self.at_punct(j, Punct::CloseParen) {
                    let d = ImportDecl { specs };
                    proof {
                        let ts = v.subrange(i as int, j + 1);
                        lemma_sub_sub(v, i as int, j + 1, 2, j - i);
                        assert(ts[0] == v[i as int]);
                        assert(ts[1] == v[i + 1]);
                        assert(ts[ts.len() - 1] == v[j as int]);
                        assert(import_decl_match(d, ts));
                    }
                    return Ok((d, j + 1));
                } else {
                    return Err(self.error(j, Expected::ImportGroupSep));
                }
            }
        } else {
            let (sp, j) = match self.parse_import_spec(i + 1) {
                Ok(x) => x,
                Err(e) => { return Err(e); },
            };
            let mut specs: Vec<ImportSpec> = Vec::new();
            specs.push(sp);
            let d = ImportDecl { specs };
            proof {
                let ts = v.subrange(i as int, j as int);
                lemma_sub_sub(v, i as int, j as int, 1, j - i);
                assert(ts[0] == v[i as int]);
                assert(import_decl_match(d, ts));
            }
            Ok((d, j))
        }
    }

    /// Parse an optional placeholder body: an empty block, or nothing.
    fn parse_body_opt(&self, i: usize) -> (r: Result<usize, ParseError>)
        requires
            i <= self.n(),
        ensures
            match r {
                Ok(j) => i <= j <= self.n() && (j == i || (j == i + 2 && body_match(
                    self.vts().subrange(i as int, j as int),
                ))),
                Err(e) => self.err_in_stream(e),
            },
        decreases self.toks@.len() - i, 38int,
    {
        let tlen = self.toks.len();
        let ghost v = self.vts();
        if self.at_punct(i, Punct::OpenBrace) {
            if !self.at_punct(i + 1, Punct::CloseBrace) {
                return Err(self.error(
                    i + 1,
                    Expected::ExactTok(TokenKind::CloseDelim(DelimToken::Brace)),
                ));
            }
            proof {
                assert(v.subrange(i as int, i + 2) =~= seq![v[i as int], v[i + 1]]);
            }
            Ok(i + 2)
        } else {
            Ok(i)
        }
    }

    /// Parse a constant declaration: `const` name, with an optional type and
    /// initializer.
    #[verifier::rlimit(40)]
    fn parse_const_decl(&self, i: usize) -> (r: Result<(ConstDecl, usize), ParseError>)
        requires
            i <= self.n(),
        ensures
            match r {
                Ok((cd, j)) => i < j <= self.n() && const_decl_match(
                    cd,
                    self.vts().subrange(i as int, j as int),
                ),
                Err(e) => self.err_in_stream(e),
            },
        decreases self.toks@.len() - i, 39int,
    {
        let tlen = self.toks.len();
        let ghost v = self.vts();
        if !self.at_keyword(i, Keyword::Const) {
            return Err(self.error(i, Expected::ExactTok(TokenKind::Keyword(Keyword::Const))));
        }
        let (name, j1) = match self.parse_ident(i + 1) {
            Ok(x) => x,
            Err(e) => { return Err(e); },
        };
        let mut identifiers: Vec<Identifier> = Vec::new();
        identifiers.push(Identifier { name });
        if self.at_punct(j1, Punct::Equals) {
            let (e, j2) = match self.parse_expression(j1 + 1) {
                Ok(x) => x,
                Err(e) => { return Err(e); },
            };
            let mut expressions: Vec<Expression> = Vec::new();
            expressions.push(e);
            let cd = ConstDecl(ConstSpec { identifiers, typ: None, expressions });
            proof {
                let ts = v.subrange(i as int, j2 as int);
                lemma_sub_sub(v, i as int, j2 as int, 1, j2 - i);
                let body = v.subrange(i + 1, j2 as int);
                lemma_sub_sub(v, i + 1, j2 as int, 2, j2 - i - 1);
                assert(body[0] == v[i + 1]);
                assert(body[1] == v[i + 2]);
                assert(const_spec_match(cd.0, body));
                assert(const_decl_match(cd, ts));
            }
            return Ok((cd, j2));
        }
        if self.starts_type(j1) {
            let (ty, j2) = match self.parse_type(j1) {
                Ok(x) => x,
                Err(e) => { return Err(e); },
            };
            if !self.at_punct(j2, Punct::Equals) {
                return Err(self.error(j2, Expected::ExactTok(TokenKind::Equals)));
            }
            let (e, j3) = match self.parse_expression(j2 + 1) {
                Ok(x) => x,
                Err(e) => { return Err(e); },
            };
            let mut expressions: Vec<Expression> = Vec::new();
            expressions.push(e);
            let cd = ConstDecl(ConstSpec { identifiers, typ: Some(ty), expressions });
            proof {
                let ts = v.subrange(i as int, j3 as int);
                lemma_sub_sub(v, i as int, j3 as int, 1, j3 - i);
                let body = v.subrange(i + 1, j3 as int);
                lemma_sub_sub(v, i + 1, j3 as int, 1, j2 - i - 1);
                lemma_sub_sub(v, i + 1, j3 as int, j2 - i, j3 - i - 1);
                assert(body[0] == v[i + 1]);
                assert(body[j2 - i - 1] == v[j2 as int]);
                assert(body.subrange(1, j2 - i - 1) == v.subrange(i + 2, j2 as int));
                assert(v.subrange(i + 2, j2 as int) == v.subrange(j1 as int, j2 as int));
                assert(body.subrange(j2 - i, j3 - i - 1) == v.subrange(j2 + 1, j3 as int));
                assert(const_spec_match(cd.0, body));
                assert(const_decl_match(cd, ts));
            }
            return Ok((cd, j3));
        }
        let cd = ConstDecl(ConstSpec { identifiers, typ: None, expressions: Vec::new() });
        proof {
            let ts = v.subrange(i as int, j1 as int);
            lemma_sub_sub(v, i as int, j1 as int, 1, j1 - i);
            let body = v.subrange(i + 1, j1 as int);
            assert(body[0] == v[i + 1]);
            assert(body.len() == 1);
            assert(const_spec_match(cd.0, body));
            assert(const_decl_match(cd, ts));
        }
        Ok((cd, j1))
    }

    /// Parse a type declaration: `type` name type.
    fn parse_type_decl(&self, i: usize) -> (r: Result<(TypeDecl, usize), ParseError>)
        requires
            i <= self.n(),
        ensures
            match r {
                Ok((td, j)) => i < j <= self.n() && type_decl_match(
                    td,
                    self.vts().subrange(i as int, j as int),
                ),
                Err(e) => self.err_in_stream(e),
            },
        decreases self.toks@.len() - i, 39int,
    {
        let tlen = self.toks.len();
        let ghost v = self.vts();
        if !self.at_keyword(i, Keyword::Type) {
            return Err(self.error(i, Expected::ExactTok(TokenKind::Keyword(Keyword::Type))));
        }
        let (name, j1) = match self.parse_ident(i + 1) {
            Ok(x) => x,
            Err(e) => { return Err(e); },
        };
        let (typ, j2) = match self.parse_type(j1) {
            Ok(x) => x,
            Err(e) => { return Err(e); },
        };
        let td = TypeDecl { name, typ };
        proof {
            let ts = v.subrange(i as int, j2 as int);
            lemma_sub_sub(v, i as int, j2 as int, 2, j2 - i);
            assert(ts[0] == v[i as int]);
            assert(ts[1] == v[i + 1]);
            assert(type_decl_match(td, ts));
        }
        Ok((td, j2))
    }

    /// Parse a variable declaration: `var` name, then a type, an
    /// initializer, or both.
    #[verifier::rlimit(40)]
    fn parse_var_decl(&self, i: usize) -> (r: Result<(VarDecl, usize), ParseError>)
        requires
            i <= self.n(),
        ensures
            match r {
                Ok((vd, j)) => i < j <= self.n() && var_decl_match(
                    vd,
                    self.vts().subrange(i as int, j as int),
                ),
                Err(e) => self.err_in_stream(e),
            },
        decreases self.toks@.len() - i, 39int,
    {
        let tlen = self.toks.len();
        let ghost v = self.vts();
        if !self.at_keyword(i, Keyword::Var) {
            return Err(self.error(i, Expected::ExactTok(TokenKind::Keyword(Keyword::Var))));
        }
        let (name, j1) = match self.parse_ident(i + 1) {
            Ok(x) => x,
            Err(e) => { return Err(e); },
        };
        let mut identifiers: Vec<Identifier> = Vec::new();
        identifiers.push(Identifier { name });
        if self.at_punct(j1, Punct::Equals) {
            let (e, j2) = match self.parse_expression(j1 + 1) {
                Ok(x) => x,
                Err(e) => { return Err(e); },
            };
            let mut expressions: Vec<Expression> = Vec::new();
            expressions.push(e);
            let vd = VarDecl { identifiers, typ: None, expressions };
            proof {
                let ts = v.subrange(i as int, j2 as int);
                lemma_sub_sub(v, i as int, j2 as int, 3, j2 - i);
                assert(ts[0] == v[i as int]);
                assert(ts[1] == v[i + 1]);
                assert(ts[2] == v[i + 2]);
                assert(var_decl_match(vd, ts));
            }
            return Ok((vd, j2));
        }
        if !self.starts_type(j1) {
            return Err(self.error(j1, Expected::TypeForm));
        }
        let (ty, j2) = match self.parse_type(j1) {
            Ok(x) => x,
            Err(e) => { return Err(e); },
        };
        if self.at_punct(j2, Punct::Equals) {
            let (e, j3) = match self.parse_expression(j2 + 1) {
                Ok(x) => x,
                Err(e) => { return Err(e); },
            };
            let mut expressions: Vec<Expression> = Vec::new();
            expressions.push(e);
            let vd = VarDecl { identifiers, typ: Some(ty), expressions };
            proof {
                let ts = v.subrange(i as int, j3 as int);
                lemma_sub_sub(v, i as int, j3 as int, 2, j2 - i);
                lemma_sub_sub(v, i as int, j3 as int, j2 - i + 1, j3 - i);
                assert(ts[0] == v[i as int]);
                assert(ts[1] == v[i + 1]);
                assert(ts[j2 - i] == v[j2 as int]);
                assert(var_decl_match(vd, ts));
            }
            return Ok((vd, j3));
        }
        let vd = VarDecl { identifiers, typ: Some(ty), expressions: Vec::new() };
        proof {
            let ts = v.subrange(i as int, j2 as int);
            lemma_sub_sub(v, i as int, j2 as int, 2, j2 - i);
            assert(ts[0] == v[i as int]);
            assert(ts[1] == v[i + 1]);
            assert(var_decl_match(vd, ts));
        }
        Ok((vd, j2))
    }

    /// Parse a `func` form: a function declaration, or a method declaration
    /// when a parenthesized receiver follows the keyword.
    #[verifier::rlimit(40)]
    fn parse_func_or_method(&self, i: usize) -> (r: Result<(TopLevelDecl, usize), ParseError>)
        requires
            i <= self.n(),
        ensures
            match r {
                Ok((d, j)) => i < j <= self.n() && top_decl_match(
                    d,
                    self.vts().subrange(i as int, j as int),
                ),
                Err(e) => self.err_in_stream(e),
            },
        decreases self.toks@.len() - i, 39int,
    {
        let tlen = self.toks.len();
        let ghost v = self.vts();
        if !self.at_keyword(i, Keyword::Func) {
            return Err(self.error(i, Expected::ExactTok(TokenKind::Keyword(Keyword::Func))));
        }
        if self.at_punct(i + 1, Punct::OpenParen) {
            // A method: receiver, name, signature, optional body.
            let (receiver, j1) = match self.parse_param_decl(i + 2) {
                Ok(x) => x,
                Err(e) => { return Err(e); },
            };
            if !self.at_punct(j1, Punct::CloseParen) {
                return Err(self.error(
                    j1,
                    Expected::ExactTok(TokenKind::CloseDelim(DelimToken::Paren)),
                ));
            }
            let (name, j2) = match self.parse_ident(j1 + 1) {
                Ok(x) => x,
                Err(e) => { return Err(e); },
            };
            let (signature, j3) = match self.parse_signature(j2) {
                Ok(x) => x,
                Err(e) => { return Err(e); },
            };
            let j4 = match self.parse_body_opt(j3) {
                Ok(x) => x,
                Err(e) => { return Err(e); },
            };
            let md = MethodDecl { receiver, name, signature, body: Vec::new() };
            let d = TopLevelDecl::Method(md);
            proof {
                let ts = v.subrange(i as int, j4 as int);
                lemma_sub_sub(v, i as int, j4 as int, 2, j1 - i);
                lemma_sub_sub(v, i as int, j4 as int, j1 - i + 2, j3 - i);
                lemma_sub_sub(v, i as int, j4 as int, j3 - i, j4 - i);
                assert(ts[0] == v[i as int]);
                assert(ts[1] == v[i + 1]);
                assert(ts[j1 - i] == v[j1 as int]);
                assert(ts[j1 - i + 1] == v[j1 + 1]);
                assert(top_decl_match(d, ts));
            }
            Ok((d, j4))
        } else {
            let (name, j1) = match self.parse_ident(i + 1) {
                Ok(x) => x,
                Err(e) => { return Err(e); },
            };
            let (signature, j2) = match self.parse_signature(j1) {
                Ok(x) => x,
                Err(e) => { return Err(e); },
            };
            let j3 = match self.parse_body_opt(j2) {
                Ok(x) => x,
                Err(e) => { return Err(e); },
            };
            let fd = FuncDecl { name, signature, body: Vec::new() };
            let d = TopLevelDecl::Func(fd);
            proof {
                let ts = v.subrange(i as int, j3 as int);
                lemma_sub_sub(v, i as int, j3 as int, 2, j2 - i);
                lemma_sub_sub(v, i as int, j3 as int, j2 - i, j3 - i);
                assert(ts[0] == v[i as int]);
                assert(ts[1] == v[i + 1]);
                assert(top_decl_match(d, ts));
            }
            Ok((d, j3))
        }
    }

    /// Parse one top-level declaration, dispatching on the leading keyword.
    fn parse_top_decl(&self, i: usize) -> (r: Result<(TopLevelDecl, usize), ParseError>)
        requires
            i <= self.n(),
        ensures
            match r {
                Ok((d, j)) => i < j <= self.n() && top_decl_match(
                    d,
                    self.vts().subrange(i as int, j as int),
                ),
                Err(e) => self.err_in_stream(e),
            },
        decreases self.toks@.len() - i, 40int,
    {
        if self.at_keyword(i, Keyword::Const) {
            let (cd, j) = match self.parse_const_decl(i) {
                Ok(x) => x,
                Err(e) => { return Err(e); },
            };
            Ok((TopLevelDecl::Statement(DeclStatement::Const(cd)), j))
        } else if self.at_keyword(i, Keyword::Type) {
            let (td, j) = match self.parse_type_decl(i) {
                Ok(x) => x,
                Err(e) => { return Err(e); },
            };
            Ok((TopLevelDecl::Statement(DeclStatement::TypeDecl(td)), j))
        } else if self.at_keyword(i, Keyword::Var) {
            let (vd, j) = match self.parse_var_decl(i) {
                Ok(x) => x,
                Err(e) => { return Err(e); },
            };
            Ok((TopLevelDecl::Statement(DeclStatement::VarDecl(vd)), j))
        } else if self.at_keyword(i, Keyword::Func) {
            self.parse_func_or_method(i)
        } else {
            Err(self.error(i, Expected::TopLevelForm))
        }
    }

    /// Parse a whole source file: the package clause, the imports, then the
    /// top-level declarations, to the end of the input.
    ///
    /// On success the tree spells exactly the consumed token stream. A file
    /// that consists of the package clause alone is always accepted.
    pub fn parse_source_file(&self) -> (r: Result<SourceFile, ParseError>)
        ensures
            match r {
                Ok(f) => file_match(f, self.vts()),
                Err(e) => self.err_in_stream(e),
            },
            (self.vts().len() >= 2 && self.vts()[0] == TokView::Keyword(Keyword::Package)
                && self.vts()[1] is Ident && import_stream(self.vts(), 2)) ==> r is Ok,
    {
        let tlen = self.toks.len();
        let ghost v = self.vts();
        if !self.at_keyword(0, Keyword::Package) {
            return Err(self.error(0, Expected::PackageKeyword));
        }
        let (package, start) = match self.parse_ident(1) {
            Ok(x) => x,
            Err(e) => { return Err(e); },
        };
        let mut import_decls: Vec<ImportDecl> = Vec::new();
        let mut i = start;
        proof {
            assert(v.subrange(2, 2) =~= Seq::<TokView>::empty());
        }
        while self.at_keyword(i, Keyword::Import)
            invariant
                self.vts() == v,
                self.toks@.len() <= usize::MAX,
                2 <= i as int <= self.n(),
                import_decl_list_match(import_decls@, v.subrange(2, i as int)),
                import_stream(v, 2) ==> import_stream(v, i as int),
            decreases self.toks@.len() - i,
        {
            let ghost old_decls = import_decls@;
            let ghost old_i = i as int;
            let (d, j) = match self.parse_import_decl(i) {
                Ok(x) => x,
                Err(e) => { return Err(e); },
            };
            proof {
                lemma_import_decl_list_push(
                    old_decls,
                    v.subrange(2, old_i),
                    d,
                    v.subrange(old_i, j as int),
                );
                assert(v.subrange(2, j as int) =~= v.subrange(2, old_i) + v.subrange(
                    old_i,
                    j as int,
                ));
            }
            import_decls.push(d);
            i = j;
        }
        let ghost m = i as int;
        let mut top_level_decls: Vec<TopLevelDecl> = Vec::new();
        proof {
            assert(v.subrange(m, m) =~= Seq::<TokView>::empty());
        }
        while i < self.toks.len()
            invariant
                self.vts() == v,
                self.toks@.len() <= usize::MAX,
                2 <= m <= i as int <= self.n(),
                top_decl_list_match(top_level_decls@, v.subrange(m, i as int)),
                (v.len() >= 2 && v[0] == TokView::Keyword(Keyword::Package) && v[1] is Ident
                    && import_stream(v, 2)) ==> i as int == self.n(),
            decreases self.toks@.len() - i,
        {
            let ghost old_decls = top_level_decls@;
            let ghost old_i = i as int;
            let (d, j) = match self.parse_top_decl(i) {
                Ok(x) => x,
                Err(e) => { return Err(e); },
            };
            proof {
                lemma_top_decl_list_push(
                    old_decls,
                    v.subrange(m, old_i),
                    d,
                    v.subrange(old_i, j as int),
                );
                assert(v.subrange(m, j as int) =~= v.subrange(m, old_i) + v.subrange(
                    old_i,
                    j as int,
                ));
            }
            top_level_decls.push(d);
            i = j;
        }
        let f = SourceFile { package, import_decls, top_level_decls };
        proof {
            assert(v.subrange(m, self.n()) == v.subrange(m, i as int));
            assert(file_match(f, v));
        }
        Ok(f)
    }
}

/// Parse a token stream into a source file.
///
/// Whitespace tokens are filtered out first, as the parser expects; on
/// success the tree spells exactly the filtered stream. Errors at end of
/// input are positioned at the last token of the stream (or at the origin
/// for an empty stream), since a bare token stream carries no
/// end-of-input position.
pub fn parse_tokens(toks: Vec<Token>) -> (r: Result<SourceFile, ParseError>)
    ensures
        match r {
            Ok(f) => file_match(f, strip_ws(views_of(toks@))),
            Err(e) => match e.found {
                Some(t) => exists|m0: int|
                    0 <= m0 < toks@.len() && t.kind@ == (#[trigger] toks@[m0]).kind@ && e.pos
                        == toks@[m0].pos,
                None => if toks@.len() > 0 {
                    e.pos == toks@[toks@.len() - 1].pos
                } else {
                    e.pos == (Position { line: 1, col: 1, offset: 0 })
                },
            },
        },
        ({
            let ts = strip_ws(views_of(toks@));
            ts.len() >= 2 && ts[0] == TokView::Keyword(Keyword::Package) && ts[1] is Ident
                && import_stream(ts, 2)
        }) ==> r is Ok,
{
    let eof = if toks.len() > 0 {
        let t = &toks[toks.len() - 1];
        t.pos
    } else {
        Position::start()
    };
    let p = Parser::new(toks, eof);
    match p.parse_source_file() {
        Ok(f) => Ok(f),
        Err(e) => {
            proof {
                if e.found is Some {
                    let t = e.found->0;
                    let m = choose|m: int|
                        0 <= m < p.toks@.len() && t.kind@ == (#[trigger] p.toks@[m]).kind@
                            && e.pos == p.toks@[m].pos;
                    assert(exists|m0: int|
                        0 <= m0 < toks@.len() && (#[trigger] p.toks@[m]).kind@ == toks@[m0].kind@
                            && p.toks@[m].pos == toks@[m0].pos);
                }
            }
            Err(e)
        },
    }
}

} // verus!
