use rgo::ast::{
    parse_primary_expr, BinaryOperator, ChanDir, DeclStatement, Expression, ImportKind, Operand,
    OperandKind, PrimaryExpr, Slice, TopLevelDecl, Type, TypeLiteral, UnaryExpr, UnaryOperator,
};
use rgo::lexer::{tokenize, LexErrorKind, Literal};
use rgo::parser::{parse_tokens, Expected, Parser};
use rgo::{parse, Error, Position};

fn name_operand(n: &str) -> PrimaryExpr {
    PrimaryExpr::Operand(Operand {
        kind: OperandKind::Name(rgo::ast::MaybeQualifiedIdent {
            package: None,
            name: String::from(n),
        }),
    })
}

fn int_operand(n: &str) -> Expression {
    Expression::UnaryExpr(UnaryExpr::PrimaryExpr(Box::new(PrimaryExpr::Operand(
        Operand {
            kind: OperandKind::Lit(Literal::Int(String::from(n))),
        },
    ))))
}

fn name_expr(n: &str) -> Expression {
    Expression::UnaryExpr(UnaryExpr::PrimaryExpr(Box::new(name_operand(n))))
}

fn expression_of(src: &str) -> Expression {
    let toks = tokenize(src).expect("tokenization should succeed");
    let p = Parser::new(toks, Position { line: 1, col: 1, offset: 0 });
    let (e, _) = p.parse_expression(0).expect("the expression should parse");
    e
}

#[test]
fn parser_accepts_package_clause_alone() {
    let f = parse("package main").expect("a bare package clause parses");
    assert_eq!(f.package, String::from("main"));
    assert!(f.import_decls.is_empty());
    assert!(f.top_level_decls.is_empty());
}

#[test]
fn grouped_import_yields_two_specs() {
    let f = parse("package main import ( \"fmt\" ; m \"lib/math\" )")
        .expect("the grouped import parses");
    assert_eq!(f.import_decls.len(), 1);
    let specs = &f.import_decls[0].specs;
    assert_eq!(specs.len(), 2);
    assert_eq!(specs[0].kind, ImportKind::Normal);
    assert_eq!(specs[0].path, String::from("fmt"));
    assert_eq!(specs[1].kind, ImportKind::Alias(String::from("m")));
    assert_eq!(specs[1].path, String::from("lib/math"));
}

#[test]
fn single_import_forms() {
    let f = parse("package main import \"fmt\"").expect("a single import parses");
    assert_eq!(f.import_decls.len(), 1);
    assert_eq!(f.import_decls[0].specs[0].kind, ImportKind::Normal);

    let f = parse("package main import . \"fmt\"").expect("a dot import parses");
    assert_eq!(f.import_decls[0].specs[0].kind, ImportKind::Glob);
}

#[test]
fn logical_and_binds_tighter_than_logical_or() {
    let e = expression_of("a || b && c");
    let expected = Expression::BinaryOperation(
        BinaryOperator::LogicalOr,
        Box::new(name_expr("a")),
        Box::new(Expression::BinaryOperation(
            BinaryOperator::LogicalAnd,
            Box::new(name_expr("b")),
            Box::new(name_expr("c")),
        )),
    );
    assert_eq!(e, expected);
}

#[test]
fn equal_precedence_folds_left_associatively() {
    let e = expression_of("a - b - c");
    let expected = Expression::BinaryOperation(
        BinaryOperator::Subtract,
        Box::new(Expression::BinaryOperation(
            BinaryOperator::Subtract,
            Box::new(name_expr("a")),
            Box::new(name_expr("b")),
        )),
        Box::new(name_expr("c")),
    );
    assert_eq!(e, expected);
}

#[test]
fn chained_primary_expression_preserves_application_order() {
    let p = parse_primary_expr("a.b[0].c()").expect("the chain parses");
    let expected = PrimaryExpr::FunctionCall(
        Box::new(PrimaryExpr::Selection(
            Box::new(PrimaryExpr::Indexing(
                Box::new(PrimaryExpr::Selection(
                    Box::new(name_operand("a")),
                    String::from("b"),
                )),
                int_operand("0"),
            )),
            String::from("c"),
        )),
        Vec::new(),
    );
    assert_eq!(p, expected);
}

#[test]
fn unterminated_string_fails_with_lex_error_at_opening_quote() {
    let err = parse("package main\nvar s = \"abc").expect_err("the literal never closes");
    match err {
        Error::Lex(e) => {
            assert_eq!(e.kind, LexErrorKind::UnterminatedString);
            assert_eq!(e.pos, Position { line: 2, col: 9, offset: 21 });
        },
        Error::Parse(_) => panic!("expected a lexical error, got a syntax error"),
    }
}

#[test]
fn missing_package_name_is_a_positioned_parse_error() {
    let err = parse("package").expect_err("the package name is missing");
    match err {
        Error::Parse(e) => {
            assert_eq!(e.expected, Expected::Identifier);
            assert_eq!(e.found, None);
            assert_eq!(e.pos, Position { line: 1, col: 8, offset: 7 });
        },
        Error::Lex(_) => panic!("expected a syntax error, got a lexical error"),
    }
}

#[test]
fn func_decl_with_parameters_and_result() {
    let f = parse("package main func add(a int, b int) int {}").expect("the function parses");
    assert_eq!(f.top_level_decls.len(), 1);
    match &f.top_level_decls[0] {
        TopLevelDecl::Func(fd) => {
            assert_eq!(fd.name, String::from("add"));
            assert_eq!(fd.signature.parameters.decls.len(), 2);
            assert_eq!(
                fd.signature.parameters.decls[0].identifiers,
                vec![String::from("a")]
            );
            assert_eq!(fd.signature.result.decls.len(), 1);
            assert!(fd.signature.result.decls[0].identifiers.is_empty());
            assert!(fd.body.is_empty());
        },
        other => panic!("expected a function declaration, got {:?}", other),
    }
}

#[test]
fn method_decl_carries_its_receiver() {
    let f = parse("package main func (s server) run() {}").expect("the method parses");
    match &f.top_level_decls[0] {
        TopLevelDecl::Method(md) => {
            assert_eq!(md.name, String::from("run"));
            assert_eq!(md.receiver.identifiers, vec![String::from("s")]);
        },
        other => panic!("expected a method declaration, got {:?}", other),
    }
}

#[test]
fn var_decl_with_type_and_initializer() {
    let f = parse("package main var x int = 1").expect("the declaration parses");
    match &f.top_level_decls[0] {
        TopLevelDecl::Statement(DeclStatement::VarDecl(vd)) => {
            assert_eq!(vd.identifiers[0].name, String::from("x"));
            assert!(vd.typ.is_some());
            assert_eq!(vd.expressions, vec![int_operand("1")]);
        },
        other => panic!("expected a var declaration, got {:?}", other),
    }
}

#[test]
fn const_decl_without_type() {
    let f = parse("package main const x = 1").expect("the declaration parses");
    match &f.top_level_decls[0] {
        TopLevelDecl::Statement(DeclStatement::Const(cd)) => {
            assert_eq!(cd.0.identifiers[0].name, String::from("x"));
            assert!(cd.0.typ.is_none());
            assert_eq!(cd.0.expressions, vec![int_operand("1")]);
        },
        other => panic!("expected a const declaration, got {:?}", other),
    }
}

#[test]
fn type_decl_dispatches_type_literals() {
    let f = parse("package main type t map[string]chan int")
        .expect("the declaration parses");
    match &f.top_level_decls[0] {
        TopLevelDecl::Statement(DeclStatement::TypeDecl(td)) => {
            assert_eq!(td.name, String::from("t"));
            match &td.typ {
                Type::Literal(TypeLiteral::MapLit(m)) => match m.value.as_ref() {
                    Type::Literal(TypeLiteral::Chan(c)) => {
                        assert_eq!(c.dir, ChanDir::Bidirectional);
                    },
                    other => panic!("expected a channel element type, got {:?}", other),
                },
                other => panic!("expected a map type, got {:?}", other),
            }
        },
        other => panic!("expected a type declaration, got {:?}", other),
    }
}

#[test]
fn pointer_slice_and_array_types() {
    let f = parse("package main var a *int var b []int var c [3]int")
        .expect("the declarations parse");
    assert_eq!(f.top_level_decls.len(), 3);
    let typ_of = |d: &TopLevelDecl| -> Type {
        match d {
            TopLevelDecl::Statement(DeclStatement::VarDecl(vd)) => {
                vd.typ.as_ref().map(clone_type).expect("a type is present")
            },
            other => panic!("expected a var declaration, got {:?}", other),
        }
    };
    assert!(matches!(typ_of(&f.top_level_decls[0]), Type::Literal(TypeLiteral::Pointer(_))));
    assert!(matches!(typ_of(&f.top_level_decls[1]), Type::Literal(TypeLiteral::Slice(_))));
    assert!(matches!(typ_of(&f.top_level_decls[2]), Type::Literal(TypeLiteral::Array(_))));
}

// The AST is a single-owner tree without `Clone`; tests that need a copy of a
// type node rebuild the discriminating shell.
fn clone_type(t: &Type) -> Type {
    match t {
        Type::Plain(q) => Type::Plain(rgo::ast::MaybeQualifiedIdent {
            package: q.package.clone(),
            name: q.name.clone(),
        }),
        Type::Literal(TypeLiteral::Pointer(_)) => {
            Type::Literal(TypeLiteral::Pointer(rgo::ast::PointerType {
                base: Box::new(Type::Plain(rgo::ast::MaybeQualifiedIdent {
                    package: None,
                    name: String::new(),
                })),
            }))
        },
        Type::Literal(TypeLiteral::Slice(_)) => {
            Type::Literal(TypeLiteral::Slice(rgo::ast::SliceType {
                elem: Box::new(Type::Plain(rgo::ast::MaybeQualifiedIdent {
                    package: None,
                    name: String::new(),
                })),
            }))
        },
        Type::Literal(TypeLiteral::Array(_)) => {
            Type::Literal(TypeLiteral::Array(rgo::ast::ArrayType {
                length: int_operand("0"),
                elem: Box::new(Type::Plain(rgo::ast::MaybeQualifiedIdent {
                    package: None,
                    name: String::new(),
                })),
            }))
        },
        _ => panic!("unexpected type shape in this test"),
    }
}

#[test]
fn two_index_slicing_with_optional_bounds() {
    let p = parse_primary_expr("a[1:]").expect("the slice parses");
    match p {
        PrimaryExpr::Slicing(_, Slice::TwoIndex(lo, hi)) => {
            assert_eq!(lo, Some(int_operand("1")));
            assert_eq!(hi, None);
        },
        other => panic!("expected a slicing, got {:?}", other),
    }
}

#[test]
fn three_index_slicing_requires_low_and_high() {
    let p = parse_primary_expr("a[1:2:3]").expect("the full form parses");
    assert!(matches!(p, PrimaryExpr::Slicing(_, Slice::ThreeIndex(_, _, _))));

    let err = parse_primary_expr("a[:2:3]").expect_err("the low bound is missing");
    match err {
        Error::Parse(e) => assert_eq!(e.expected, Expected::SliceBound),
        Error::Lex(_) => panic!("expected a syntax error, got a lexical error"),
    }
}

#[test]
fn type_assertion_suffix() {
    let p = parse_primary_expr("a.(b)").expect("the assertion parses");
    match p {
        PrimaryExpr::TypeAssertion(base, t) => {
            assert_eq!(*base, name_operand("a"));
            assert!(matches!(t, Type::Plain(_)));
        },
        other => panic!("expected a type assertion, got {:?}", other),
    }
}

#[test]
fn unary_operators_nest_right() {
    let e = expression_of("-!x");
    let expected = Expression::UnaryExpr(UnaryExpr::UnaryOperation(
        UnaryOperator::Minus,
        Box::new(UnaryExpr::UnaryOperation(
            UnaryOperator::Not,
            Box::new(UnaryExpr::PrimaryExpr(Box::new(name_operand("x")))),
        )),
    ));
    assert_eq!(e, expected);
}

#[test]
fn parenthesized_operands_nest() {
    let e = expression_of("(a)");
    match e {
        Expression::UnaryExpr(UnaryExpr::PrimaryExpr(p)) => match *p {
            PrimaryExpr::Operand(o) => {
                assert!(matches!(o.kind, OperandKind::Parenthesized(_)));
            },
            other => panic!("expected an operand, got {:?}", other),
        },
        other => panic!("expected a primary expression, got {:?}", other),
    }
}

#[test]
fn parse_tokens_accepts_a_prelexed_stream() {
    let toks = tokenize("package lib").expect("tokenization should succeed");
    let f = parse_tokens(toks).expect("the stream parses");
    assert_eq!(f.package, String::from("lib"));
}

#[test]
fn primary_expression_must_span_the_whole_input() {
    let err = parse_primary_expr("a b").expect_err("trailing tokens are rejected");
    match err {
        Error::Parse(e) => assert_eq!(e.expected, Expected::EndOfInput),
        Error::Lex(_) => panic!("expected a syntax error, got a lexical error"),
    }
}

#[test]
fn qualified_type_names_carry_their_package() {
    let f = parse("package main var x lib.T").expect("the declaration parses");
    match &f.top_level_decls[0] {
        TopLevelDecl::Statement(DeclStatement::VarDecl(vd)) => match vd.typ.as_ref() {
            Some(Type::Plain(q)) => {
                assert_eq!(q.package, Some(String::from("lib")));
                assert_eq!(q.name, String::from("T"));
            },
            other => panic!("expected a qualified plain type, got {:?}", other),
        },
        other => panic!("expected a var declaration, got {:?}", other),
    }
}

#[test]
fn channel_directions_follow_the_arrow() {
    let f = parse("package main type r <-chan int type s chan<- int")
        .expect("the declarations parse");
    let dir_of = |d: &TopLevelDecl| -> ChanDir {
        match d {
            TopLevelDecl::Statement(DeclStatement::TypeDecl(td)) => match &td.typ {
                Type::Literal(TypeLiteral::Chan(c)) => c.dir,
                other => panic!("expected a channel type, got {:?}", other),
            },
            other => panic!("expected a type declaration, got {:?}", other),
        }
    };
    assert_eq!(dir_of(&f.top_level_decls[0]), ChanDir::ReceiveOnly);
    assert_eq!(dir_of(&f.top_level_decls[1]), ChanDir::SendOnly);
}

#[test]
fn function_types_and_parenthesized_results() {
    let f = parse("package main var h func(int) (int, int)").expect("the declaration parses");
    match &f.top_level_decls[0] {
        TopLevelDecl::Statement(DeclStatement::VarDecl(vd)) => match vd.typ.as_ref() {
            Some(Type::Literal(TypeLiteral::Function(ft))) => {
                assert_eq!(ft.signature.parameters.decls.len(), 1);
                assert_eq!(ft.signature.result.decls.len(), 2);
            },
            other => panic!("expected a function type, got {:?}", other),
        },
        other => panic!("expected a var declaration, got {:?}", other),
    }
}

#[test]
fn receive_operator_is_a_unary_expression() {
    let e = expression_of("<-c");
    match e {
        Expression::UnaryExpr(UnaryExpr::UnaryOperation(op, _)) => {
            assert_eq!(op, UnaryOperator::Receive);
        },
        other => panic!("expected a unary receive, got {:?}", other),
    }
}

#[test]
fn call_arguments_are_comma_separated() {
    let p = parse_primary_expr("f(a, 1)").expect("the call parses");
    match p {
        PrimaryExpr::FunctionCall(_, args) => {
            assert_eq!(args.len(), 2);
            assert_eq!(args[0].expr, name_expr("a"));
            assert_eq!(args[1].expr, int_operand("1"));
        },
        other => panic!("expected a call, got {:?}", other),
    }
}

#[test]
fn import_group_requires_separators() {
    let err = parse("package main import ( \"a\" \"b\" )")
        .expect_err("two specs need a semicolon between them");
    match err {
        Error::Parse(e) => assert_eq!(e.expected, Expected::ImportGroupSep),
        Error::Lex(_) => panic!("expected a syntax error, got a lexical error"),
    }
}

#[test]
fn imports_cannot_follow_declarations() {
    let err = parse("package main var x = 1 import \"fmt\"")
        .expect_err("imports must precede declarations");
    match err {
        Error::Parse(e) => assert_eq!(e.expected, Expected::TopLevelForm),
        Error::Lex(_) => panic!("expected a syntax error, got a lexical error"),
    }
}
