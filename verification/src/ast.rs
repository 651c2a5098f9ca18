//! The abstract syntax tree: the node types that mirror the Go grammar's
//! productions for the declaration, type and expression skeleton of a source
//! file.
//!
//! The tree is a single-owner structure rooted at [`SourceFile`]; every child
//! is exclusively owned by its parent, and all text is owned, so the tree
//! outlives the source buffer. Nodes are complete values from construction
//! on; nothing mutates a node once the parser has returned it.
//!
//! Statement bodies are out of scope at this layer: a function body is an
//! (always empty) placeholder sequence of [`Statement`].

use vstd::prelude::*;
use crate::token::Literal;

verus! {

// SourceFile       = PackageClause { ImportDecl } { TopLevelDecl } .

/// A complete source file: the mandatory package clause, then the import
/// declarations, then the top-level declarations, in source order. The parse
/// order guarantees that imports precede all top-level declarations.
#[derive(Debug, PartialEq, Eq)]
pub struct SourceFile {
    pub package: String,
    pub import_decls: Vec<ImportDecl>,
    pub top_level_decls: Vec<TopLevelDecl>,
}

// ImportDecl       = "import" ( ImportSpec | "(" { ImportSpec ";" } ")" ) .
// ImportSpec       = [ "." | PackageName ] ImportPath .
// ImportPath       = string_lit .

/// An import declaration: one spec in the single form, any number in the
/// parenthesized group form.
#[derive(Debug, PartialEq, Eq)]
pub struct ImportDecl {
    pub specs: Vec<ImportSpec>,
}

/// One import spec: the path (the content of its string literal) and how the
/// imported names are bound.
#[derive(Debug, PartialEq, Eq)]
pub struct ImportSpec {
    pub kind: ImportKind,
    pub path: String,
}

/// How an import binds names; exactly one form applies per spec.
#[derive(Debug, PartialEq, Eq)]
pub enum ImportKind {
    /// A plain import: the package is referred to by its own name.
    Normal,
    /// An aliased import: the package is bound to the given local name.
    Alias(String),
    /// A dot import: the package's exported identifiers become visible
    /// unqualified.
    Glob,
}

// Declaration   = ConstDecl | TypeDecl | VarDecl .

/// A declaration that may also appear at statement level.
#[derive(Debug, PartialEq, Eq)]
pub enum DeclStatement {
    Const(ConstDecl),
    TypeDecl(TypeDecl),
    VarDecl(VarDecl),
}

/// A top-level declaration: what may appear after the import declarations.
#[derive(Debug, PartialEq, Eq)]
pub enum TopLevelDecl {
    Statement(DeclStatement),
    Func(FuncDecl),
    Method(MethodDecl),
}

// ConstDecl      = "const" ConstSpec .
// ConstSpec      = IdentifierList [ [ Type ] "=" ExpressionList ] .

/// A constant declaration, single-spec form.
#[derive(Debug, PartialEq, Eq)]
pub struct ConstDecl(pub ConstSpec);

/// One constant spec: the bound identifiers, an optional shared type, and
/// the initializing expressions (empty when the spec only repeats a previous
/// one inside a group, a form this layer does not produce).
#[derive(Debug, PartialEq, Eq)]
pub struct ConstSpec {
    pub identifiers: Vec<Identifier>,
    pub typ: Option<Type>,
    pub expressions: Vec<Expression>,
}

/// A type declaration: `type` name type.
#[derive(Debug, PartialEq, Eq)]
pub struct TypeDecl {
    pub name: String,
    pub typ: Type,
}

// VarDecl = "var" IdentifierList ( Type [ "=" ExpressionList ] | "=" ExpressionList ) .

/// A variable declaration: the bound identifiers, an optional type, and the
/// initializing expressions (possibly empty when a type is given).
#[derive(Debug, PartialEq, Eq)]
pub struct VarDecl {
    pub identifiers: Vec<Identifier>,
    pub typ: Option<Type>,
    pub expressions: Vec<Expression>,
}

/// A plain identifier.
#[derive(Debug, PartialEq, Eq)]
pub struct Identifier {
    pub name: String,
}

// Expression = UnaryExpr | Expression binary_op Expression .
// UnaryExpr  = PrimaryExpr | unary_op UnaryExpr .
//
// binary_op  = "||" | "&&" | rel_op | add_op | mul_op .
// rel_op     = "==" | "!=" | "<" | "<=" | ">" | ">=" .
// add_op     = "+" | "-" | "|" | "^" .
// mul_op     = "*" | "/" | "%" | "<<" | ">>" | "&" | "&^" .
//
// unary_op   = "+" | "-" | "!" | "^" | "*" | "&" | "<-" .

/// An expression: a unary expression, or two expressions combined by a
/// binary operator. The parser builds the binary form by precedence
/// climbing, folding operators of equal precedence left-associatively.
#[derive(Debug, PartialEq, Eq)]
pub enum Expression {
    UnaryExpr(UnaryExpr),
    BinaryOperation(BinaryOperator, Box<Expression>, Box<Expression>),
}

/// The binary operators, across all five precedence levels.
#[derive(Debug, Clone, Copy, PartialEq, Eq, Structural)]
pub enum BinaryOperator {
    LogicalOr,
    LogicalAnd,
    Equal,
    NotEqual,
    Less,
    LessEqual,
    Greater,
    GreaterEqual,
    Add,
    Subtract,
    BitOr,
    BitXor,
    Multiply,
    Divide,
    Modulo,
    ShiftLeft,
    ShiftRight,
    BitAnd,
    BitClear,
}

/// A unary expression: a primary expression, or a prefix operator applied to
/// another unary expression (right-nested).
#[derive(Debug, PartialEq, Eq)]
pub enum UnaryExpr {
    PrimaryExpr(Box<PrimaryExpr>),
    UnaryOperation(UnaryOperator, Box<UnaryExpr>),
}

/// The prefix unary operators.
#[derive(Debug, Clone, Copy, PartialEq, Eq, Structural)]
pub enum UnaryOperator {
    Plus,
    Minus,
    Not,
    Caret,
    Star,
    Amp,
    Receive,
}

// PrimaryExpr =
//  Operand |
//  Conversion |
//  PrimaryExpr Selector |
//  PrimaryExpr Index |
//  PrimaryExpr Slice |
//  PrimaryExpr TypeAssertion |
//  PrimaryExpr Arguments .
//
// Selector       = "." identifier .
// Index          = "[" Expression "]" .
// Slice          = "[" ( [ Expression ] ":" [ Expression ] ) |
//                      ( Expression ":" Expression ":" Expression )
//                  "]" .
// TypeAssertion  = "." "(" Type ")" .
// Arguments      = "(" [ ExpressionList [ "," ] ] ")" .

/// A primary expression: the operand of unary and binary expressions. Either
/// a base operand or conversion, or one suffix operation chained onto
/// another primary expression, preserving left-to-right application order.
#[derive(Debug, PartialEq, Eq)]
pub enum PrimaryExpr {
    Operand(Operand),
    Conversion(Conversion),
    Selection(Box<PrimaryExpr>, String),
    Indexing(Box<PrimaryExpr>, Expression),
    Slicing(Box<PrimaryExpr>, Slice),
    TypeAssertion(Box<PrimaryExpr>, Type),
    FunctionCall(Box<PrimaryExpr>, Vec<Argument>),
}

/// A base operand: a literal, a (possibly package-qualified) name, or a
/// parenthesized expression.
#[derive(Debug, PartialEq, Eq)]
pub struct Operand {
    pub kind: OperandKind,
}

/// The forms an operand can take.
#[derive(Debug, PartialEq, Eq)]
pub enum OperandKind {
    Lit(Literal),
    Name(MaybeQualifiedIdent),
    Parenthesized(Box<Expression>),
}

/// A type conversion `T(x)`. The parser cannot tell a conversion from a
/// function call when the callee is a plain name — the two are grammatically
/// identical there, and only semantic resolution decides — so it accepts both
/// as calls; this node exists for later passes that do decide.
#[derive(Debug, PartialEq, Eq)]
pub struct Conversion {
    pub typ: Type,
    pub expr: Box<Expression>,
}

/// One argument of a function call.
#[derive(Debug, PartialEq, Eq)]
pub struct Argument {
    pub expr: Expression,
}

/// A slicing operation's bounds. In the two-index form each bound is
/// independently optional (an absent low means "from the start", an absent
/// high "to the end"); the three-index form carries the capacity bound and
/// requires the low and high bounds to be present.
#[derive(Debug, PartialEq, Eq)]
pub enum Slice {
    TwoIndex(Option<Expression>, Option<Expression>),
    ThreeIndex(Expression, Expression, Expression),
}

// FunctionDecl = "func" FunctionName Signature [ FunctionBody ] .
// FunctionName = identifier .

/// A function declaration. Functions with the same name are syntactically
/// legal input at this layer; uniqueness is a later semantic pass's job.
#[derive(Debug, PartialEq, Eq)]
pub struct FuncDecl {
    pub name: String,
    pub signature: FuncSignature,
    pub body: Vec<Statement>,
}

// MethodDecl = "func" Receiver MethodName Signature [ FunctionBody ] .

/// A method declaration: a function with a receiver.
#[derive(Debug, PartialEq, Eq)]
pub struct MethodDecl {
    pub receiver: ParameterDecl,
    pub name: String,
    pub signature: FuncSignature,
    pub body: Vec<Statement>,
}

/// A function signature: the parameters, and the result — which is itself a
/// parameter list, since Go results may be multiple and named.
#[derive(Debug, PartialEq, Eq)]
pub struct FuncSignature {
    pub parameters: Parameters,
    pub result: Parameters,
}

/// A parameter list: an ordered sequence of parameter declarations.
#[derive(Debug, PartialEq, Eq)]
pub struct Parameters {
    pub decls: Vec<ParameterDecl>,
}

impl Parameters {
    /// An empty parameter list.
    pub fn empty() -> (p: Parameters)
        ensures
            p.decls@ =~= Seq::<ParameterDecl>::empty(),
    {
        Parameters { decls: Vec::new() }
    }

    /// A parameter list containing a single, unnamed type: the form a bare
    /// result type elaborates to.
    pub fn from_single_type(t: Type) -> (p: Parameters)
        ensures
            p.decls@.len() == 1,
            p.decls@[0].identifiers@ =~= Seq::<String>::empty(),
            p.decls@[0].typ == t,
    {
        let mut decls: Vec<ParameterDecl> = Vec::new();
        decls.push(ParameterDecl { identifiers: Vec::new(), typ: t });
        Parameters { decls }
    }
}

/// One parameter declaration: zero or more identifiers sharing one type. An
/// empty identifier list is the first-class unnamed form, not a synthesized
/// name.
#[derive(Debug, PartialEq, Eq)]
pub struct ParameterDecl {
    pub identifiers: Vec<String>,
    /// The type assigned to every identifier in this declaration.
    pub typ: Type,
}

// Type = TypeName | TypeLit .

/// A type: a possibly package-qualified name, or a type literal.
#[derive(Debug, PartialEq, Eq)]
pub enum Type {
    Plain(MaybeQualifiedIdent),
    Literal(TypeLiteral),
}

/// The type literals, one per leading keyword or punctuation form.
#[derive(Debug, PartialEq, Eq)]
pub enum TypeLiteral {
    Array(ArrayType),
    Struct(StructType),
    Pointer(PointerType),
    Function(FuncType),
    Interface(InterfaceType),
    Slice(SliceType),
    MapLit(MapType),
    Chan(ChanType),
}

/// A _potentially_ qualified identifier (e.g. `math.Sin`): an optional
/// package-name prefix and a name. Absence of the prefix means the name
/// resolves in the current file's scope.
#[derive(Debug, PartialEq, Eq)]
pub struct MaybeQualifiedIdent {
    pub package: Option<String>,
    pub name: String,
}

// ArrayType = "[" ArrayLength "]" ElementType .

/// An array type: a length expression and an element type.
#[derive(Debug, PartialEq, Eq)]
pub struct ArrayType {
    pub length: Expression,
    pub elem: Box<Type>,
}

// StructType = "struct" "{" { FieldDecl ";" } "}" .
// FieldDecl  = IdentifierList Type .

/// A struct type: its field declarations.
#[derive(Debug, PartialEq, Eq)]
pub struct StructType {
    pub fields: Vec<FieldDecl>,
}

/// One field declaration of a struct type: one or more names sharing a type.
#[derive(Debug, PartialEq, Eq)]
pub struct FieldDecl {
    pub identifiers: Vec<Identifier>,
    pub typ: Type,
}

// PointerType = "*" BaseType .

/// A pointer type.
#[derive(Debug, PartialEq, Eq)]
pub struct PointerType {
    pub base: Box<Type>,
}

// FunctionType = "func" Signature .

/// A function type: `func` followed by a signature.
#[derive(Debug, PartialEq, Eq)]
pub struct FuncType {
    pub signature: FuncSignature,
}

// InterfaceType = "interface" "{" { MethodSpec ";" } "}" .

/// An interface type: its method specs.
#[derive(Debug, PartialEq, Eq)]
pub struct InterfaceType {
    pub methods: Vec<MethodSpec>,
}

/// One method spec of an interface type: a name and a signature.
#[derive(Debug, PartialEq, Eq)]
pub struct MethodSpec {
    pub name: String,
    pub signature: FuncSignature,
}

// SliceType = "[" "]" ElementType .

/// A slice type.
#[derive(Debug, PartialEq, Eq)]
pub struct SliceType {
    pub elem: Box<Type>,
}

// MapType = "map" "[" KeyType "]" ElementType .

/// A map type: a key type and an element type.
#[derive(Debug, PartialEq, Eq)]
pub struct MapType {
    pub key: Box<Type>,
    pub value: Box<Type>,
}

// ChannelType = ( "chan" | "chan" "<-" | "<-" "chan" ) ElementType .

/// A channel type: its direction and element type.
#[derive(Debug, PartialEq, Eq)]
pub struct ChanType {
    pub dir: ChanDir,
    pub elem: Box<Type>,
}

/// A channel direction.
#[derive(Debug, Clone, Copy, PartialEq, Eq, Structural)]
pub enum ChanDir {
    Bidirectional,
    SendOnly,
    ReceiveOnly,
}

/// A statement. The statement grammar is out of scope at this layer: bodies
/// are placeholder sequences, always empty, and this type carries no data
/// yet.
#[derive(Debug, Clone, PartialEq, Eq, Structural)]
pub struct Statement;

/// Parse one primary expression from source text, requiring that it spans
/// the whole input.
///
/// The lexical layer is exact, as in [`crate::parse`]; on success the chain
/// spells exactly the whitespace-filtered token stream, and the parser never
/// decides a call to be a conversion (the two are grammatically identical, so
/// the outermost node of `T(x)` is a call, never a [`Conversion`]). An
/// operand followed by any plain chain of suffixes — selectors,
/// single-literal index operations, empty argument lists, as in `a.b[0].c()`
/// — always parses; a syntax error names one of the source's tokens at its
/// true position.
pub fn parse_primary_expr(s: &str) -> (r: Result<PrimaryExpr, crate::Error>)
    ensures
        match r {
            Ok(p) => crate::lexer::spec_tokenize(s@, 0) is Ok && crate::parser::primary_match(
                p,
                crate::parser::strip_ws(
                    crate::lexer::token_kinds(crate::lexer::spec_tokenize(s@, 0)->Ok_0),
                ),
            ) && !(p is Conversion),
            Err(crate::Error::Lex(e)) => match crate::lexer::spec_tokenize(s@, 0) {
                Ok(_) => false,
                Err((k, i)) => e.kind == k && crate::pos::pos_matches(s@, i, e.pos),
            },
            Err(crate::Error::Parse(e)) => crate::lexer::spec_tokenize(s@, 0) is Ok
                && crate::parse_error_positioned(s@, e),
        },
        (crate::lexer::spec_tokenize(s@, 0) is Ok && {
            let ts = crate::parser::strip_ws(
                crate::lexer::token_kinds(crate::lexer::spec_tokenize(s@, 0)->Ok_0),
            );
            ts.len() >= 1 && crate::parser::lone_operand(ts[0])
                && crate::parser::plain_suffix_chain(ts, 1)
        }) ==> r is Ok,
{
    let toks = match crate::lexer::tokenize(s) {
        Ok(t) => t,
        Err(e) => {
            return Err(crate::Error::Lex(e));
        },
    };
    proof {
        let sts = crate::lexer::spec_tokenize(s@, 0)->Ok_0;
        assert(crate::parser::views_of(toks@) =~= crate::lexer::token_kinds(sts));
    }
    let eof = crate::lexer::end_position(s);
    let p = crate::parser::Parser::new(toks, eof);
    let (prim, j) = match p.parse_primary(0) {
        Ok(x) => x,
        Err(e) => {
            proof {
                crate::lemma_parse_error_positioned(s@, toks@, p, e);
            }
            return Err(crate::Error::Parse(e));
        },
    };
    if j < p.toks.len() {
        let e = p.trailing_error(j);
        proof {
            crate::lemma_parse_error_positioned(s@, toks@, p, e);
        }
        return Err(crate::Error::Parse(e));
    }
    proof {
        assert(p.vts().subrange(0, p.n()) =~= p.vts());
    }
    Ok(prim)
}

} // verus!
