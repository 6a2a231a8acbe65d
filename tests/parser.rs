use bedrockc::ast::{
    Attribute, BinaryOperator, Expression, Function, GlobalVariable, Program, Statement, TopLevelItem, Type,
};
use bedrockc::lexer::{LexError, Lexer, Token, TokenKind};
use bedrockc::parser::{Expected, ParseError, Parser};

fn parse(source: &str) -> Result<Program, ParseError> {
    let mut parser = Parser::new(Lexer::new(source));
    parser.parse_program()
}

fn ident(n: &str) -> Expression {
    Expression::Identifier(n.to_string())
}

const KERNEL: &str = "
#[address(0xB8000)]
volatile let VIDEO_MEM: *u16;

#[interrupt]
#[align(16)]
fn kernel_main() -> void {
    unsafe {
        *VIDEO_MEM = cast<u16>(66) | 0x0F00;
    }
    loop {
        asm(\"hlt\");
    }
}
";

#[test]
fn parses_kernel_example() {
    let program = parse(KERNEL).unwrap();
    let expected = Program {
        items: vec![
            TopLevelItem::GlobalVariable(GlobalVariable {
                name: "VIDEO_MEM".to_string(),
                ty: Type::Pointer(Box::new(Type::U16)),
                is_volatile: true,
                attributes: vec![Attribute::Address(0xB8000)],
            }),
            TopLevelItem::Function(Function {
                name: "kernel_main".to_string(),
                return_type: Type::Void,
                attributes: vec![Attribute::Interrupt, Attribute::Align(16)],
                body: vec![
                    Statement::UnsafeBlock(vec![Statement::Assignment {
                        target: Expression::Dereference(Box::new(ident("VIDEO_MEM"))),
                        value: Expression::BinaryOp {
                            op: BinaryOperator::BitwiseOr,
                            left: Box::new(Expression::Cast {
                                target_type: Type::U16,
                                value: Box::new(Expression::Integer(66)),
                            }),
                            right: Box::new(Expression::Integer(0x0F00)),
                        },
                    }]),
                    Statement::LoopBlock(vec![Statement::ExpressionStmt(Expression::Asm("hlt".to_string()))]),
                ],
            }),
        ],
    };
    assert_eq!(program, expected);
}

#[test]
fn parsing_twice_gives_the_same_tree() {
    let a = parse(KERNEL).unwrap();
    let b = parse(KERNEL).unwrap();
    assert_eq!(a, b);
    assert_eq!(format!("{:?}", a), format!("{:?}", b));
}

#[test]
fn empty_program() {
    assert_eq!(parse("").unwrap(), Program { items: vec![] });
}

#[test]
fn missing_function_name() {
    assert_eq!(
        parse("fn () -> void {}"),
        Err(ParseError::Unexpected { expected: Expected::Token(TokenKind::Identifier), found: Token::LParen })
    );
}

#[test]
fn let_statement_call_and_bitwise_or_grouping() {
    let program = parse("fn f() -> u8 { let k: u8 = inb(cast<u16>(0x60)); a | b | (c | d); }").unwrap();
    let body = match &program.items[0] {
        TopLevelItem::Function(f) => &f.body,
        _ => panic!("not a function"),
    };
    assert_eq!(
        body[0],
        Statement::Let {
            name: "k".to_string(),
            ty: Type::U8,
            value: Expression::FunctionCall {
                name: "inb".to_string(),
                args: vec![Expression::Cast { target_type: Type::U16, value: Box::new(Expression::Integer(0x60)) }],
            },
            is_volatile: false,
        }
    );
    let or = |l: Expression, r: Expression| Expression::BinaryOp {
        op: BinaryOperator::BitwiseOr,
        left: Box::new(l),
        right: Box::new(r),
    };
    assert_eq!(
        body[1],
        Statement::ExpressionStmt(or(or(ident("a"), ident("b")), or(ident("c"), ident("d"))))
    );
}

#[test]
fn call_arguments() {
    let program = parse("fn f() -> void { g(); h(1, x, *p); }").unwrap();
    let body = match &program.items[0] {
        TopLevelItem::Function(f) => &f.body,
        _ => panic!("not a function"),
    };
    assert_eq!(body[0], Statement::ExpressionStmt(Expression::FunctionCall { name: "g".to_string(), args: vec![] }));
    assert_eq!(
        body[1],
        Statement::ExpressionStmt(Expression::FunctionCall {
            name: "h".to_string(),
            args: vec![Expression::Integer(1), ident("x"), Expression::Dereference(Box::new(ident("p")))],
        })
    );
}

#[test]
fn trailing_comma_in_call_is_rejected() {
    assert_eq!(
        parse("fn f() -> void { g(1,); }"),
        Err(ParseError::Unexpected { expected: Expected::Expression, found: Token::RParen })
    );
}

#[test]
fn nested_pointer_types() {
    let program = parse("let p: **i64;").unwrap();
    match &program.items[0] {
        TopLevelItem::GlobalVariable(g) => {
            assert_eq!(g.ty, Type::Pointer(Box::new(Type::Pointer(Box::new(Type::I64)))));
            assert!(!g.is_volatile);
        }
        _ => panic!("not a global"),
    }
}

#[test]
fn unknown_type_name() {
    assert_eq!(parse("let x: u9;"), Err(ParseError::UnknownType("u9".to_string())));
}

#[test]
fn unknown_attribute_name() {
    assert_eq!(parse("#[inline] fn f() -> void {}"), Err(ParseError::UnknownAttribute("inline".to_string())));
}

#[test]
fn attribute_argument_must_be_an_integer() {
    assert_eq!(
        parse("#[address(x)] let a: u8;"),
        Err(ParseError::Unexpected {
            expected: Expected::Token(TokenKind::Integer),
            found: Token::Identifier("x".to_string()),
        })
    );
}

#[test]
fn volatile_function_is_rejected() {
    assert_eq!(parse("volatile fn f() -> void {}"), Err(ParseError::VolatileFunction));
}

#[test]
fn stray_token_at_top_level() {
    assert_eq!(
        parse("fn f() -> void {} }"),
        Err(ParseError::Unexpected { expected: Expected::Item, found: Token::RBrace })
    );
}

#[test]
fn unclosed_block() {
    assert_eq!(
        parse("fn f() -> void { loop { asm(\"hlt\"); }"),
        Err(ParseError::Unexpected { expected: Expected::Token(TokenKind::RBrace), found: Token::EOF })
    );
}

#[test]
fn asm_needs_a_string() {
    assert_eq!(
        parse("fn f() -> void { asm(5); }"),
        Err(ParseError::Unexpected {
            expected: Expected::Token(TokenKind::StringLiteral),
            found: Token::Integer(5),
        })
    );
}

#[test]
fn lexical_error_reaches_the_parser() {
    assert_eq!(
        parse("fn f() -> void { $ }"),
        Err(ParseError::Lexical(LexError::UnexpectedChar { ch: '$', pos: 17 }))
    );
}
