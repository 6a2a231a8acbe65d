//! Recursive-descent parsing of a token sequence into a program tree.
//!
//! The grammar is stated by the spec functions `p_*` below: each takes the
//! token sequence and a position, and gives the parsed value with the position
//! after it, or the error at the first mismatch.
use vstd::prelude::*;

use crate::ast::{
    exprs_view, items_view, lemma_block_view, lemma_call_view, stmts_view, Attribute, BinaryOperator, ExprV,
    Expression, Function, FunctionV, GlobalV, GlobalVariable, ItemV, Program, Statement, StmtV,
    TopLevelItem, Type,
};
use crate::text::same_text;
use crate::lexer::{kind_of, lex, lemma_lex_progress, LexError, Lexer, Token, TokenKind, TokenV};

verus! {

/// What the parser was looking for when it failed.
#[derive(Debug, Clone, Copy, PartialEq, Eq, Structural)]
pub enum Expected {
    Token(TokenKind),
    Type,
    Expression,
    Item,
}

#[derive(Debug, PartialEq, Eq)]
pub enum ParseError {
    /// The token found where something else was expected.
    Unexpected { expected: Expected, found: Token },
    /// A type name that is not one of the scalar types.
    UnknownType(String),
    /// An attribute name other than `address`, `interrupt` and `align`.
    UnknownAttribute(String),
    /// `volatile` in front of a function.
    VolatileFunction,
    /// The source text could not be split into tokens.
    Lexical(LexError),
}

/// Model of a parse error.
pub enum ParseErrorV {
    Unexpected { expected: Expected, found: TokenV },
    UnknownType(Seq<char>),
    UnknownAttribute(Seq<char>),
    VolatileFunction,
    Lexical(LexError),
}

impl View for ParseError {
    type V = ParseErrorV;

    open spec fn view(&self) -> ParseErrorV {
        match self {
            ParseError::Unexpected { expected, found } => ParseErrorV::Unexpected {
                expected: *expected,
                found: found@,
            },
            ParseError::UnknownType(n) => ParseErrorV::UnknownType(n@),
            ParseError::UnknownAttribute(n) => ParseErrorV::UnknownAttribute(n@),
            ParseError::VolatileFunction => ParseErrorV::VolatileFunction,
            ParseError::Lexical(e) => ParseErrorV::Lexical(*e),
        }
    }
}

// ---------------------------------------------------------------------------
// The token stream of a source text

/// All tokens of `s` from `pos` on, up to the end marker (which is left out),
/// and the lexical error that cut the stream short, if any.
pub open spec fn lex_all(s: Seq<char>, pos: int) -> (Seq<TokenV>, Option<LexError>)
    decreases s.len() - pos,
{
    let (r, q) = lex(s, pos);
    match r {
        Ok(TokenV::EOF) => (Seq::empty(), None),
        Ok(t) => if pos < q <= s.len() {
            let (rest, err) = lex_all(s, q);
            (seq![t] + rest, err)
        } else {
            (Seq::empty(), None)
        },
        Err(e) => (Seq::empty(), Some(e)),
    }
}

/// The program that a source text parses to, or the first error.
pub open spec fn parse_source(s: Seq<char>) -> Result<Seq<ItemV>, ParseErrorV> {
    let (toks, err) = lex_all(s, 0);
    match err {
        Some(e) => Err(ParseErrorV::Lexical(e)),
        None => match p_program(toks, 0) {
            Ok((items, _)) => Ok(items),
            Err(e) => Err(e),
        },
    }
}

// ---------------------------------------------------------------------------
// The grammar

pub open spec fn cur(t: Seq<TokenV>, i: int) -> TokenV {
    if 0 <= i < t.len() {
        t[i]
    } else {
        TokenV::EOF
    }
}

pub open spec fn unexpected(exp: Expected, t: Seq<TokenV>, i: int) -> ParseErrorV {
    ParseErrorV::Unexpected { expected: exp, found: cur(t, i) }
}

/// One token of kind `k` at `i`.
pub open spec fn expect(t: Seq<TokenV>, i: int, k: TokenKind) -> Result<int, ParseErrorV> {
    if kind_of(cur(t, i)) == k {
        Ok(i + 1)
    } else {
        Err(unexpected(Expected::Token(k), t, i))
    }
}

/// Puts `front` before the list that `r` parsed.
pub open spec fn prepend<A>(front: Seq<A>, r: Result<(Seq<A>, int), ParseErrorV>) -> Result<
    (Seq<A>, int),
    ParseErrorV,
> {
    match r {
        Ok((rest, k)) => Ok((front + rest, k)),
        Err(e) => Err(e),
    }
}

pub open spec fn scalar_type(n: Seq<char>) -> Option<Type> {
    if n == "u8"@ {
        Some(Type::U8)
    } else if n == "u16"@ {
        Some(Type::U16)
    } else if n == "u32"@ {
        Some(Type::U32)
    } else if n == "u64"@ {
        Some(Type::U64)
    } else if n == "i8"@ {
        Some(Type::I8)
    } else if n == "i16"@ {
        Some(Type::I16)
    } else if n == "i32"@ {
        Some(Type::I32)
    } else if n == "i64"@ {
        Some(Type::I64)
    } else if n == "f32"@ {
        Some(Type::F32)
    } else if n == "f64"@ {
        Some(Type::F64)
    } else if n == "bool"@ {
        Some(Type::Bool)
    } else if n == "void"@ {
        Some(Type::Void)
    } else {
        None
    }
}

/// `type := '*' type | ident`
pub open spec fn p_type(t: Seq<TokenV>, i: int) -> Result<(Type, int), ParseErrorV>
    decreases t.len() - i,
{
    match cur(t, i) {
        TokenV::Star => if 0 <= i < t.len() {
            match p_type(t, i + 1) {
                Ok((ty, j)) => Ok((Type::Pointer(Box::new(ty)), j)),
                Err(e) => Err(e),
            }
        } else {
            Err(unexpected(Expected::Type, t, i))
        },
        TokenV::Identifier(n) => match scalar_type(n) {
            Some(ty) => Ok((ty, i + 1)),
            None => Err(ParseErrorV::UnknownType(n)),
        },
        _ => Err(unexpected(Expected::Type, t, i)),
    }
}

/// `'(' integer ')'`
pub open spec fn p_attr_arg(t: Seq<TokenV>, i: int) -> Result<(u64, int), ParseErrorV> {
    match expect(t, i, TokenKind::LParen) {
        Err(e) => Err(e),
        Ok(j) => match cur(t, j) {
            TokenV::Integer(v) => match expect(t, j + 1, TokenKind::RParen) {
                Ok(k) => Ok((v, k)),
                Err(e) => Err(e),
            },
            _ => Err(unexpected(Expected::Token(TokenKind::Integer), t, j)),
        },
    }
}

/// `attribute := '#' '[' ident ( '(' integer ')' )? ']'`, with `i` at the `#`.
pub open spec fn p_attr(t: Seq<TokenV>, i: int) -> Result<(Attribute, int), ParseErrorV> {
    match expect(t, i + 1, TokenKind::LBracket) {
        Err(e) => Err(e),
        Ok(j) => match cur(t, j) {
            TokenV::Identifier(name) => {
                let r = if name == "address"@ {
                    match p_attr_arg(t, j + 1) {
                        Ok((v, k)) => Ok((Attribute::Address(v), k)),
                        Err(e) => Err(e),
                    }
                } else if name == "interrupt"@ {
                    Ok((Attribute::Interrupt, j + 1))
                } else if name == "align"@ {
                    match p_attr_arg(t, j + 1) {
                        Ok((v, k)) => Ok((Attribute::Align(v), k)),
                        Err(e) => Err(e),
                    }
                } else {
                    Err(ParseErrorV::UnknownAttribute(name))
                };
                match r {
                    Ok((a, k)) => match expect(t, k, TokenKind::RBracket) {
                        Ok(m) => Ok((a, m)),
                        Err(e) => Err(e),
                    },
                    Err(e) => Err(e),
                }
            },
            _ => Err(unexpected(Expected::Token(TokenKind::Identifier), t, j)),
        },
    }
}

/// `attribute*`
pub open spec fn p_attrs(t: Seq<TokenV>, i: int) -> Result<(Seq<Attribute>, int), ParseErrorV>
    decreases t.len() - i,
{
    if cur(t, i) == TokenV::Hash {
        match p_attr(t, i) {
            Ok((a, j)) => if i < j <= t.len() {
                prepend(seq![a], p_attrs(t, j))
            } else {
                Ok((seq![a], j))
            },
            Err(e) => Err(e),
        }
    } else {
        Ok((Seq::empty(), i))
    }
}

/// `global := 'volatile'? 'let' ident ':' type ';'`, with `i` after the `let`.
pub open spec fn p_global(t: Seq<TokenV>, i: int, attrs: Seq<Attribute>, vol: bool) -> Result<
    (ItemV, int),
    ParseErrorV,
> {
    match cur(t, i) {
        TokenV::Identifier(name) => match expect(t, i + 1, TokenKind::Colon) {
            Err(e) => Err(e),
            Ok(j) => match p_type(t, j) {
                Err(e) => Err(e),
                Ok((ty, k)) => match expect(t, k, TokenKind::SemiColon) {
                    Err(e) => Err(e),
                    Ok(m) => Ok(
                        (
                            ItemV::Global(
                                GlobalV { name, ty, is_volatile: vol, attributes: attrs },
                            ),
                            m,
                        ),
                    ),
                },
            },
        },
        _ => Err(unexpected(Expected::Token(TokenKind::Identifier), t, i)),
    }
}

/// `function := 'fn' ident '(' ')' '->' type '{' statement* '}'`, with `i` after the `fn`.
pub open spec fn p_function(t: Seq<TokenV>, i: int, attrs: Seq<Attribute>) -> Result<
    (ItemV, int),
    ParseErrorV,
> {
    match cur(t, i) {
        TokenV::Identifier(name) => match expect(t, i + 1, TokenKind::LParen) {
            Err(e) => Err(e),
            Ok(j1) => match expect(t, j1, TokenKind::RParen) {
                Err(e) => Err(e),
                Ok(j2) => match expect(t, j2, TokenKind::Arrow) {
                    Err(e) => Err(e),
                    Ok(j3) => match p_type(t, j3) {
                        Err(e) => Err(e),
                        Ok((ret, j4)) => match expect(t, j4, TokenKind::LBrace) {
                            Err(e) => Err(e),
                            Ok(j5) => match p_block(t, j5) {
                                Err(e) => Err(e),
                                Ok((body, j6)) => Ok(
                                    (
                                        ItemV::Function(
                                            FunctionV {
                                                name,
                                                return_type: ret,
                                                attributes: attrs,
                                                body,
                                            },
                                        ),
                                        j6,
                                    ),
                                ),
                            },
                        },
                    },
                },
            },
        },
        _ => Err(unexpected(Expected::Token(TokenKind::Identifier), t, i)),
    }
}

/// `item := attribute* (global | function)`
pub open spec fn p_item(t: Seq<TokenV>, i: int) -> Result<(ItemV, int), ParseErrorV> {
    match p_attrs(t, i) {
        Err(e) => Err(e),
        Ok((attrs, i1)) => {
            let vol = cur(t, i1) == TokenV::Volatile;
            let i2 = if vol {
                i1 + 1
            } else {
                i1
            };
            match cur(t, i2) {
                TokenV::Let => p_global(t, i2 + 1, attrs, vol),
                TokenV::Fn => if vol {
                    Err(ParseErrorV::VolatileFunction)
                } else {
                    p_function(t, i2 + 1, attrs)
                },
                _ => Err(unexpected(Expected::Item, t, i2)),
            }
        },
    }
}

/// `program := item*`, up to the end of input.
pub open spec fn p_program(t: Seq<TokenV>, i: int) -> Result<(Seq<ItemV>, int), ParseErrorV>
    decreases t.len() - i,
{
    if cur(t, i) == TokenV::EOF {
        Ok((Seq::empty(), i))
    } else {
        match p_item(t, i) {
            Ok((it, j)) => if i < j <= t.len() {
                prepend(seq![it], p_program(t, j))
            } else {
                Ok((seq![it], j))
            },
            Err(e) => Err(e),
        }
    }
}

/// `statement* '}'`, with `i` after the `{`.
pub open spec fn p_block(t: Seq<TokenV>, i: int) -> Result<(Seq<StmtV>, int), ParseErrorV>
    decreases t.len() - i, 6nat,
{
    if cur(t, i) != TokenV::RBrace && cur(t, i) != TokenV::EOF {
        match p_stmt(t, i) {
            Ok((s, j)) => if i < j <= t.len() {
                prepend(seq![s], p_block(t, j))
            } else {
                Ok((seq![s], j))
            },
            Err(e) => Err(e),
        }
    } else {
        match expect(t, i, TokenKind::RBrace) {
            Ok(k) => Ok((Seq::empty(), k)),
            Err(e) => Err(e),
        }
    }
}

/// `statement := let_stmt | unsafe_stmt | loop_stmt | expr ('=' expr)? ';'`
pub open spec fn p_stmt(t: Seq<TokenV>, i: int) -> Result<(StmtV, int), ParseErrorV>
    decreases t.len() - i, 5nat,
{
    match cur(t, i) {
        TokenV::Let => match cur(t, i + 1) {
            TokenV::Identifier(name) => match expect(t, i + 2, TokenKind::Colon) {
                Err(e) => Err(e),
                Ok(j) => match p_type(t, j) {
                    Err(e) => Err(e),
                    Ok((ty, k)) => match expect(t, k, TokenKind::Equals) {
                        Err(e) => Err(e),
                        Ok(m) => if i < m <= t.len() {
                            match p_expr(t, m) {
                                Err(e) => Err(e),
                                Ok((value, n)) => match expect(t, n, TokenKind::SemiColon) {
                                    Err(e) => Err(e),
                                    Ok(q) => Ok(
                                        (StmtV::Let { name, ty, value, is_volatile: false }, q),
                                    ),
                                },
                            }
                        } else {
                            Err(unexpected(Expected::Expression, t, m))
                        },
                    },
                },
            },
            _ => Err(unexpected(Expected::Token(TokenKind::Identifier), t, i + 1)),
        },
        TokenV::Unsafe => match expect(t, i + 1, TokenKind::LBrace) {
            Err(e) => Err(e),
            Ok(j) => if i < j <= t.len() {
                match p_block(t, j) {
                    Ok((b, k)) => Ok((StmtV::UnsafeBlock(b), k)),
                    Err(e) => Err(e),
                }
            } else {
                Err(unexpected(Expected::Token(TokenKind::RBrace), t, j))
            },
        },
        TokenV::Loop => match expect(t, i + 1, TokenKind::LBrace) {
            Err(e) => Err(e),
            Ok(j) => if i < j <= t.len() {
                match p_block(t, j) {
                    Ok((b, k)) => Ok((StmtV::LoopBlock(b), k)),
                    Err(e) => Err(e),
                }
            } else {
                Err(unexpected(Expected::Token(TokenKind::RBrace), t, j))
            },
        },
        _ => match p_expr(t, i) {
            Err(e) => Err(e),
            Ok((target, j)) => if cur(t, j) == TokenV::Equals {
                if i < j + 1 <= t.len() {
                    match p_expr(t, j + 1) {
                        Err(e) => Err(e),
                        Ok((value, k)) => match expect(t, k, TokenKind::SemiColon) {
                            Err(e) => Err(e),
                            Ok(m) => Ok((StmtV::Assignment { target, value }, m)),
                        },
                    }
                } else {
                    Err(unexpected(Expected::Expression, t, j + 1))
                }
            } else {
                match expect(t, j, TokenKind::SemiColon) {
                    Err(e) => Err(e),
                    Ok(m) => Ok((StmtV::ExpressionStmt(target), m)),
                }
            },
        },
    }
}

/// `expr := bitwise_or`
pub open spec fn p_expr(t: Seq<TokenV>, i: int) -> Result<(ExprV, int), ParseErrorV>
    decreases t.len() - i, 4nat,
{
    p_or(t, i)
}

/// `bitwise_or := unary ('|' unary)*`, grouped to the left.
pub open spec fn p_or(t: Seq<TokenV>, i: int) -> Result<(ExprV, int), ParseErrorV>
    decreases t.len() - i, 3nat,
{
    match p_unary(t, i) {
        Err(e) => Err(e),
        Ok((left, j)) => if i < j <= t.len() {
            p_or_rest(t, j, left)
        } else {
            Ok((left, j))
        },
    }
}

/// The `('|' unary)*` part, with `left` parsed already.
pub open spec fn p_or_rest(t: Seq<TokenV>, i: int, left: ExprV) -> Result<(ExprV, int), ParseErrorV>
    decreases t.len() - i, 3nat,
{
    if cur(t, i) == TokenV::Pipe {
        match p_unary(t, i + 1) {
            Err(e) => Err(e),
            Ok((right, j)) => {
                let e = ExprV::BinaryOp(BinaryOperator::BitwiseOr, Box::new(left), Box::new(right));
                if i < j <= t.len() {
                    p_or_rest(t, j, e)
                } else {
                    Ok((e, j))
                }
            },
        }
    } else {
        Ok((left, i))
    }
}

/// `unary := '*' unary | 'cast' '<' type '>' '(' expr ')' | primary`
pub open spec fn p_unary(t: Seq<TokenV>, i: int) -> Result<(ExprV, int), ParseErrorV>
    decreases t.len() - i, 2nat,
{
    match cur(t, i) {
        TokenV::Star => if 0 <= i < t.len() {
            match p_unary(t, i + 1) {
                Ok((e, j)) => Ok((ExprV::Dereference(Box::new(e)), j)),
                Err(e) => Err(e),
            }
        } else {
            Err(unexpected(Expected::Expression, t, i))
        },
        TokenV::Cast => match expect(t, i + 1, TokenKind::LessThan) {
            Err(e) => Err(e),
            Ok(j1) => match p_type(t, j1) {
                Err(e) => Err(e),
                Ok((ty, j2)) => match expect(t, j2, TokenKind::GreaterThan) {
                    Err(e) => Err(e),
                    Ok(j3) => match expect(t, j3, TokenKind::LParen) {
                        Err(e) => Err(e),
                        Ok(j4) => if i < j4 <= t.len() {
                            match p_expr(t, j4) {
                                Err(e) => Err(e),
                                Ok((v, j5)) => match expect(t, j5, TokenKind::RParen) {
                                    Err(e) => Err(e),
                                    Ok(j6) => Ok((ExprV::Cast(ty, Box::new(v)), j6)),
                                },
                            }
                        } else {
                            Err(unexpected(Expected::Expression, t, j4))
                        },
                    },
                },
            },
        },
        _ => p_primary(t, i),
    }
}

/// `primary := integer | ident ('(' arglist ')')? | 'asm' '(' string ')' | '(' expr ')'`
pub open spec fn p_primary(t: Seq<TokenV>, i: int) -> Result<(ExprV, int), ParseErrorV>
    decreases t.len() - i, 1nat,
{
    match cur(t, i) {
        TokenV::Integer(v) => Ok((ExprV::Integer(v), i + 1)),
        TokenV::Identifier(n) => if cur(t, i + 1) == TokenV::LParen {
            if 0 <= i && i + 2 <= t.len() {
                match p_args(t, i + 2) {
                    Ok((args, j)) => Ok((ExprV::FunctionCall(n, args), j)),
                    Err(e) => Err(e),
                }
            } else {
                Err(unexpected(Expected::Expression, t, i + 2))
            }
        } else {
            Ok((ExprV::Identifier(n), i + 1))
        },
        TokenV::Asm => match expect(t, i + 1, TokenKind::LParen) {
            Err(e) => Err(e),
            Ok(j) => match cur(t, j) {
                TokenV::StringLiteral(code) => match expect(t, j + 1, TokenKind::RParen) {
                    Ok(k) => Ok((ExprV::Asm(code), k)),
                    Err(e) => Err(e),
                },
                _ => Err(unexpected(Expected::Token(TokenKind::StringLiteral), t, j)),
            },
        },
        TokenV::LParen => if 0 <= i < t.len() {
            match p_expr(t, i + 1) {
                Err(e) => Err(e),
                Ok((e, j)) => match expect(t, j, TokenKind::RParen) {
                    Ok(k) => Ok((e, k)),
                    Err(err) => Err(err),
                },
            }
        } else {
            Err(unexpected(Expected::Expression, t, i))
        },
        _ => Err(unexpected(Expected::Expression, t, i)),
    }
}

/// `arglist ')'`, with `i` after the `(`: comma-separated, no trailing comma.
pub open spec fn p_args(t: Seq<TokenV>, i: int) -> Result<(Seq<ExprV>, int), ParseErrorV>
    decreases t.len() - i, 7nat,
{
    if cur(t, i) == TokenV::RParen {
        Ok((Seq::empty(), i + 1))
    } else {
        p_arg_list(t, i)
    }
}

/// `expr (',' expr)* ')'`
pub open spec fn p_arg_list(t: Seq<TokenV>, i: int) -> Result<(Seq<ExprV>, int), ParseErrorV>
    decreases t.len() - i, 6nat,
{
    match p_expr(t, i) {
        Err(e) => Err(e),
        Ok((e, j)) => if i < j <= t.len() {
            prepend(seq![e], p_args_tail(t, j))
        } else {
            Ok((seq![e], j))
        },
    }
}

/// After an argument: `',' expr ...` or the closing `)`.
pub open spec fn p_args_tail(t: Seq<TokenV>, i: int) -> Result<(Seq<ExprV>, int), ParseErrorV>
    decreases t.len() - i, 7nat,
{
    if cur(t, i) == TokenV::Comma {
        if 0 <= i < t.len() {
            p_arg_list(t, i + 1)
        } else {
            Err(unexpected(Expected::Expression, t, i))
        }
    } else {
        match expect(t, i, TokenKind::RParen) {
            Ok(k) => Ok((Seq::empty(), k)),
            Err(e) => Err(e),
        }
    }
}


// ---------------------------------------------------------------------------
// The parser

pub open spec fn expr_result(r: Result<Expression, ParseError>, end: int, s: Result<(ExprV, int), ParseErrorV>) -> bool {
    match r {
        Ok(e) => s == Ok::<_, ParseErrorV>((e@, end)),
        Err(e) => s == Err::<(ExprV, int), ParseErrorV>(e@),
    }
}

pub open spec fn stmt_result(r: Result<Statement, ParseError>, end: int, s: Result<(StmtV, int), ParseErrorV>) -> bool {
    match r {
        Ok(st) => s == Ok::<_, ParseErrorV>((st@, end)),
        Err(e) => s == Err::<(StmtV, int), ParseErrorV>(e@),
    }
}

pub open spec fn block_result(
    r: Result<Vec<Statement>, ParseError>,
    end: int,
    s: Result<(Seq<StmtV>, int), ParseErrorV>,
) -> bool {
    match r {
        Ok(b) => s == Ok::<_, ParseErrorV>((stmts_view(b@), end)),
        Err(e) => s == Err::<(Seq<StmtV>, int), ParseErrorV>(e@),
    }
}

pub open spec fn type_result(r: Result<Type, ParseError>, end: int, s: Result<(Type, int), ParseErrorV>) -> bool {
    match r {
        Ok(ty) => s == Ok::<_, ParseErrorV>((ty, end)),
        Err(e) => s == Err::<(Type, int), ParseErrorV>(e@),
    }
}

pub open spec fn attrs_result(
    r: Result<Vec<Attribute>, ParseError>,
    end: int,
    s: Result<(Seq<Attribute>, int), ParseErrorV>,
) -> bool {
    match r {
        Ok(a) => s == Ok::<_, ParseErrorV>((a@, end)),
        Err(e) => s == Err::<(Seq<Attribute>, int), ParseErrorV>(e@),
    }
}

pub open spec fn item_result(r: Result<TopLevelItem, ParseError>, end: int, s: Result<(ItemV, int), ParseErrorV>) -> bool {
    match r {
        Ok(it) => s == Ok::<_, ParseErrorV>((it@, end)),
        Err(e) => s == Err::<(ItemV, int), ParseErrorV>(e@),
    }
}

pub open spec fn unit_result(r: Result<(), ParseError>, end: int, s: Result<int, ParseErrorV>) -> bool {
    match r {
        Ok(_) => s == Ok::<int, ParseErrorV>(end),
        Err(e) => s == Err::<int, ParseErrorV>(e@),
    }
}

pub open spec fn tokens_view(v: Seq<Token>) -> Seq<TokenV> {
    v.map_values(|t: Token| t@)
}

/// A parser over the tokens of one source text.
pub struct Parser {
    tokens: Vec<Token>,
    position: usize,
    lex_error: Option<LexError>,
}

impl Parser {
    /// The tokens, without the end marker.
    pub closed spec fn toks(&self) -> Seq<TokenV> {
        tokens_view(self.tokens@)
    }

    pub closed spec fn pos(&self) -> int {
        self.position as int
    }

    /// The lexical error that ended the token stream, if any.
    pub closed spec fn lexical_error(&self) -> Option<LexError> {
        self.lex_error
    }

    pub closed spec fn wf(&self) -> bool {
        self.position <= self.tokens@.len() <= usize::MAX
    }

    /// Takes every token from `lexer`, up to the end of input or the first lexical error.
    pub fn new(lexer: Lexer) -> (r: Parser)
        requires
            lexer.wf(),
        ensures
            r.wf(),
            r.pos() == 0,
            (r.toks(), r.lexical_error()) == lex_all(lexer.source(), lexer.pos()),
    {
        let mut lx = lexer;
        let ghost src = lx.source();
        let ghost start = lx.pos();
        proof {
            lx.lemma_wf();
        }
        let mut tokens: Vec<Token> = Vec::new();
        loop
            invariant
                lx.wf(),
                lx.source() == src,
                src == lexer.source(),
                start == lexer.pos(),
                0 <= lx.pos() <= src.len(),
                lex_all(src, start) == ({
                    let (rest, err) = lex_all(src, lx.pos());
                    (tokens_view(tokens@) + rest, err)
                }),
            decreases src.len() - lx.pos(),
        {
            let ghost before = lx.pos();
            let ghost old_view = tokens_view(tokens@);
            proof {
                lemma_lex_progress(src, before);
            }
            match lx.next_token() {
                Ok(Token::EOF) => {
                    assert(lex_all(src, before) == (Seq::<TokenV>::empty(), None::<LexError>));
                    assert(old_view + Seq::<TokenV>::empty() =~= old_view);
                    // reading the length tells the verifier that it fits in a usize
                    let _ = tokens.len();
                    assert(lex_all(src, start) == (tokens_view(tokens@), None::<LexError>));
                    return Parser { tokens, position: 0, lex_error: None };
                },
                Ok(t) => {
                    let ghost tv = t@;
                    tokens.push(t);
                    proof {
                        lx.lemma_wf();
                    }
                    assert(tokens_view(tokens@) =~= old_view.push(tv));
                    assert(lex_all(src, before) == ({
                        let (rest, err) = lex_all(src, lx.pos());
                        (seq![tv] + rest, err)
                    }));
                    assert(old_view + (seq![tv] + lex_all(src, lx.pos()).0) =~= old_view.push(tv)
                        + lex_all(src, lx.pos()).0);
                },
                Err(e) => {
                    assert(lex_all(src, before) == (Seq::<TokenV>::empty(), Some(e)));
                    assert(old_view + Seq::<TokenV>::empty() =~= old_view);
                    // reading the length tells the verifier that it fits in a usize
                    let _ = tokens.len();
                    return Parser { tokens, position: 0, lex_error: Some(e) };
                },
            }
        }
    }

    fn advance(&mut self)
        requires
            old(self).wf(),
            old(self).position < old(self).tokens@.len(),
        ensures
            final(self).wf(),
            final(self).tokens == old(self).tokens,
            final(self).lex_error == old(self).lex_error,
            final(self).position == old(self).position + 1,
    {
        self.position = self.position + 1;
    }

    fn current_kind(&self) -> (k: TokenKind)
        requires
            self.wf(),
        ensures
            k == kind_of(cur(self.toks(), self.pos())),
    {
        if self.position < self.tokens.len() {
            self.tokens[self.position].kind()
        } else {
            TokenKind::EOF
        }
    }

    /// The current token.
    fn current(&self) -> (r: Token)
        requires
            self.wf(),
        ensures
            r@ == cur(self.toks(), self.pos()),
    {
        if self.position < self.tokens.len() {
            self.tokens[self.position].duplicate()
        } else {
            Token::EOF
        }
    }

    fn unexpected(&self, expected: Expected) -> (e: ParseError)
        requires
            self.wf(),
        ensures
            e@ == unexpected(expected, self.toks(), self.pos()),
    {
        ParseError::Unexpected { expected, found: self.current() }
    }

    /// The name held by the current token, if it is an identifier.
    fn current_name(&self) -> (r: Option<String>)
        requires
            self.wf(),
        ensures
            match cur(self.toks(), self.pos()) {
                TokenV::Identifier(n) => r is Some && r->0@ == n,
                _ => r is None,
            },
    {
        if self.position < self.tokens.len() {
            match &self.tokens[self.position] {
                Token::Identifier(n) => Some(n.clone()),
                _ => None,
            }
        } else {
            None
        }
    }

    /// The value of the current token, if it is an integer literal.
    fn current_integer(&self) -> (r: Option<u64>)
        requires
            self.wf(),
        ensures
            match cur(self.toks(), self.pos()) {
                TokenV::Integer(v) => r == Some(v),
                _ => r is None,
            },
    {
        if self.position < self.tokens.len() {
            match &self.tokens[self.position] {
                Token::Integer(v) => Some(*v),
                _ => None,
            }
        } else {
            None
        }
    }

    /// The text of the current token, if it is a string literal.
    fn current_string(&self) -> (r: Option<String>)
        requires
            self.wf(),
        ensures
            match cur(self.toks(), self.pos()) {
                TokenV::StringLiteral(s) => r is Some && r->0@ == s,
                _ => r is None,
            },
    {
        if self.position < self.tokens.len() {
            match &self.tokens[self.position] {
                Token::StringLiteral(s) => Some(s.clone()),
                _ => None,
            }
        } else {
            None
        }
    }

    fn expect(&mut self, expected: TokenKind) -> (r: Result<(), ParseError>)
        requires
            old(self).wf(),
            expected != TokenKind::EOF,
        ensures
            final(self).wf(),
            final(self).tokens == old(self).tokens,
            final(self).lex_error == old(self).lex_error,
            unit_result(r, final(self).pos(), expect(old(self).toks(), old(self).pos(), expected)),
            r is Ok ==> final(self).pos() == old(self).pos() + 1,
    {
        if self.current_kind() == expected {
            self.advance();
            Ok(())
        } else {
            Err(self.unexpected(Expected::Token(expected)))
        }
    }

    fn parse_type(&mut self) -> (r: Result<Type, ParseError>)
        requires
            old(self).wf(),
        ensures
            final(self).wf(),
            final(self).tokens == old(self).tokens,
            final(self).lex_error == old(self).lex_error,
            type_result(r, final(self).pos(), p_type(old(self).toks(), old(self).pos())),
            r is Ok ==> final(self).pos() > old(self).pos(),
        decreases old(self).tokens@.len() - old(self).position,
    {
        match self.current_kind() {
            TokenKind::Star => {
                self.advance();
                match self.parse_type() {
                    Ok(inner) => Ok(Type::Pointer(Box::new(inner))),
                    Err(e) => Err(e),
                }
            },
            TokenKind::Identifier => {
                let name = match self.current_name() {
                    Some(n) => n,
                    None => { return Err(self.unexpected(Expected::Type)); },
                };
                let ty = if same_text(name.as_str(), "u8") {
                    Type::U8
                } else if same_text(name.as_str(), "u16") {
                    Type::U16
                } else if same_text(name.as_str(), "u32") {
                    Type::U32
                } else if same_text(name.as_str(), "u64") {
                    Type::U64
                } else if same_text(name.as_str(), "i8") {
                    Type::I8
                } else if same_text(name.as_str(), "i16") {
                    Type::I16
                } else if same_text(name.as_str(), "i32") {
                    Type::I32
                } else if same_text(name.as_str(), "i64") {
                    Type::I64
                } else if same_text(name.as_str(), "f32") {
                    Type::F32
                } else if same_text(name.as_str(), "f64") {
                    Type::F64
                } else if same_text(name.as_str(), "bool") {
                    Type::Bool
                } else if same_text(name.as_str(), "void") {
                    Type::Void
                } else {
                    return Err(ParseError::UnknownType(name));
                };
                self.advance();
                Ok(ty)
            },
            _ => Err(self.unexpected(Expected::Type)),
        }
    }

    /// The result of parsing the whole token stream, from the current position on.
    pub fn parse_program(&mut self) -> (r: Result<Program, ParseError>)
        requires
            old(self).wf(),
        ensures
            final(self).wf(),
            match r {
                Ok(p) => program_result(old(self).lexical_error(), old(self).toks(), old(self).pos())
                    == Ok::<Seq<ItemV>, ParseErrorV>(p@),
                Err(e) => program_result(old(self).lexical_error(), old(self).toks(), old(self).pos())
                    == Err::<Seq<ItemV>, ParseErrorV>(e@),
            },
    {
        if let Some(e) = self.lex_error {
            return Err(ParseError::Lexical(e));
        }
        let ghost t = self.toks();
        let ghost i0 = self.pos();
        let mut items: Vec<TopLevelItem> = Vec::new();
        assert(items_view(items@) + Seq::<ItemV>::empty() =~= Seq::<ItemV>::empty());
        while self.current_kind() != TokenKind::EOF
            invariant
                self.wf(),
                self.tokens == old(self).tokens,
                self.lex_error == old(self).lex_error,
                self.toks() == t,
                i0 <= self.pos(),
                t == old(self).toks(),
                i0 == old(self).pos(),
                old(self).lex_error is None,
                p_program(t, i0) == prepend(items_view(items@), p_program(t, self.pos())),
            decreases self.tokens@.len() - self.position,
        {
            let ghost old_items = items_view(items@);
            match self.parse_top_level_item() {
                Ok(it) => {
                    let ghost iv = it@;
                    items.push(it);
                    proof {
                        assert(items_view(items@) =~= old_items.push(iv));
                        lemma_prepend_assoc(old_items, seq![iv], p_program(t, self.pos()));
                        assert(old_items + seq![iv] =~= old_items.push(iv));
                    }
                },
                Err(e) => {
                    return Err(e);
                },
            }
        }
        assert(items_view(items@) + Seq::<ItemV>::empty() =~= items_view(items@));
        Ok(Program { items })
    }

    fn parse_top_level_item(&mut self) -> (r: Result<TopLevelItem, ParseError>)
        requires
            old(self).wf(),
        ensures
            final(self).wf(),
            final(self).tokens == old(self).tokens,
            final(self).lex_error == old(self).lex_error,
            item_result(r, final(self).pos(), p_item(old(self).toks(), old(self).pos())),
            r is Ok ==> final(self).pos() > old(self).pos(),
    {
        let attributes = match self.parse_attributes() {
            Ok(a) => a,
            Err(e) => {
                return Err(e);
            },
        };
        let is_volatile = if self.current_kind() == TokenKind::Volatile {
            self.advance();
            true
        } else {
            false
        };
        match self.current_kind() {
            TokenKind::Let => {
                self.advance();
                let name = match self.current_name() {
                    Some(n) => n,
                    None => {
                        return Err(self.unexpected(Expected::Token(TokenKind::Identifier)));
                    },
                };
                self.advance();
                if let Err(e) = self.expect(TokenKind::Colon) {
                    return Err(e);
                }
                let ty = match self.parse_type() {
                    Ok(ty) => ty,
                    Err(e) => {
                        return Err(e);
                    },
                };
                if let Err(e) = self.expect(TokenKind::SemiColon) {
                    return Err(e);
                }
                Ok(TopLevelItem::GlobalVariable(GlobalVariable { name, ty, is_volatile, attributes }))
            },
            TokenKind::Fn => {
                if is_volatile {
                    return Err(ParseError::VolatileFunction);
                }
                self.advance();
                let name = match self.current_name() {
                    Some(n) => n,
                    None => {
                        return Err(self.unexpected(Expected::Token(TokenKind::Identifier)));
                    },
                };
                self.advance();
                if let Err(e) = self.expect(TokenKind::LParen) {
                    return Err(e);
                }
                if let Err(e) = self.expect(TokenKind::RParen) {
                    return Err(e);
                }
                if let Err(e) = self.expect(TokenKind::Arrow) {
                    return Err(e);
                }
                let return_type = match self.parse_type() {
                    Ok(ty) => ty,
                    Err(e) => {
                        return Err(e);
                    },
                };
                if let Err(e) = self.expect(TokenKind::LBrace) {
                    return Err(e);
                }
                let body = match self.parse_block() {
                    Ok(b) => b,
                    Err(e) => {
                        return Err(e);
                    },
                };
                Ok(TopLevelItem::Function(Function { name, return_type, attributes, body }))
            },
            _ => Err(self.unexpected(Expected::Item)),
        }
    }

    /// Statements up to the closing brace, which it consumes.
    fn parse_block(&mut self) -> (r: Result<Vec<Statement>, ParseError>)
        requires
            old(self).wf(),
        ensures
            final(self).wf(),
            final(self).tokens == old(self).tokens,
            final(self).lex_error == old(self).lex_error,
            block_result(r, final(self).pos(), p_block(old(self).toks(), old(self).pos())),
            r is Ok ==> final(self).pos() > old(self).pos(),
        decreases old(self).tokens@.len() - old(self).position, 6nat,
    {
        let ghost t = self.toks();
        let ghost i0 = self.pos();
        let mut statements: Vec<Statement> = Vec::new();
        assert(stmts_view(statements@) + Seq::<StmtV>::empty() =~= Seq::<StmtV>::empty());
        while self.current_kind() != TokenKind::RBrace && self.current_kind() != TokenKind::EOF
            invariant
                self.wf(),
                self.tokens == old(self).tokens,
                self.lex_error == old(self).lex_error,
                self.toks() == t,
                i0 <= self.pos(),
                self.tokens@.len() == old(self).tokens@.len(),
                old(self).position == i0,
                p_block(t, i0) == prepend(stmts_view(statements@), p_block(t, self.pos())),
            decreases self.tokens@.len() - self.position,
        {
            let ghost old_sv = stmts_view(statements@);
            match self.parse_statement() {
                Ok(st) => {
                    let ghost sv = st@;
                    statements.push(st);
                    proof {
                        assert(stmts_view(statements@) =~= old_sv.push(sv));
                        lemma_prepend_assoc(old_sv, seq![sv], p_block(t, self.pos()));
                        assert(old_sv + seq![sv] =~= old_sv.push(sv));
                    }
                },
                Err(e) => {
                    return Err(e);
                },
            }
        }
        match self.expect(TokenKind::RBrace) {
            Ok(_) => {
                assert(stmts_view(statements@) + Seq::<StmtV>::empty() =~= stmts_view(statements@));
                Ok(statements)
            },
            Err(e) => Err(e),
        }
    }

    fn parse_statement(&mut self) -> (r: Result<Statement, ParseError>)
        requires
            old(self).wf(),
        ensures
            final(self).wf(),
            final(self).tokens == old(self).tokens,
            final(self).lex_error == old(self).lex_error,
            stmt_result(r, final(self).pos(), p_stmt(old(self).toks(), old(self).pos())),
            r is Ok ==> final(self).pos() > old(self).pos(),
        decreases old(self).tokens@.len() - old(self).position, 5nat,
    {
        match self.current_kind() {
            TokenKind::Let => {
                self.advance();
                let name = match self.current_name() {
                    Some(n) => n,
                    None => {
                        return Err(self.unexpected(Expected::Token(TokenKind::Identifier)));
                    },
                };
                self.advance();
                if let Err(e) = self.expect(TokenKind::Colon) {
                    return Err(e);
                }
                let ty = match self.parse_type() {
                    Ok(ty) => ty,
                    Err(e) => {
                        return Err(e);
                    },
                };
                if let Err(e) = self.expect(TokenKind::Equals) {
                    return Err(e);
                }
                let value = match self.parse_expression() {
                    Ok(v) => v,
                    Err(e) => {
                        return Err(e);
                    },
                };
                if let Err(e) = self.expect(TokenKind::SemiColon) {
                    return Err(e);
                }
                Ok(Statement::Let { name, ty, value, is_volatile: false })
            },
            TokenKind::Unsafe | TokenKind::Loop => {
                let is_loop = self.current_kind() == TokenKind::Loop;
                self.advance();
                if let Err(e) = self.expect(TokenKind::LBrace) {
                    return Err(e);
                }
                let body = match self.parse_block() {
                    Ok(b) => b,
                    Err(e) => {
                        return Err(e);
                    },
                };
                proof {
                    lemma_block_view(body);
                }
                if is_loop {
                    Ok(Statement::LoopBlock(body))
                } else {
                    Ok(Statement::UnsafeBlock(body))
                }
            },
            _ => {
                let expr = match self.parse_expression() {
                    Ok(e) => e,
                    Err(e) => {
                        return Err(e);
                    },
                };
                if self.current_kind() == TokenKind::Equals {
                    self.advance();
                    let value = match self.parse_expression() {
                        Ok(v) => v,
                        Err(e) => {
                            return Err(e);
                        },
                    };
                    if let Err(e) = self.expect(TokenKind::SemiColon) {
                        return Err(e);
                    }
                    Ok(Statement::Assignment { target: expr, value })
                } else {
                    if let Err(e) = self.expect(TokenKind::SemiColon) {
                        return Err(e);
                    }
                    Ok(Statement::ExpressionStmt(expr))
                }
            },
        }
    }

    fn parse_expression(&mut self) -> (r: Result<Expression, ParseError>)
        requires
            old(self).wf(),
        ensures
            final(self).wf(),
            final(self).tokens == old(self).tokens,
            final(self).lex_error == old(self).lex_error,
            expr_result(r, final(self).pos(), p_expr(old(self).toks(), old(self).pos())),
            r is Ok ==> final(self).pos() > old(self).pos(),
        decreases old(self).tokens@.len() - old(self).position, 4nat,
    {
        self.parse_binary_expression()
    }

    /// Operands joined by `|`, grouped to the left.
    fn parse_binary_expression(&mut self) -> (r: Result<Expression, ParseError>)
        requires
            old(self).wf(),
        ensures
            final(self).wf(),
            final(self).tokens == old(self).tokens,
            final(self).lex_error == old(self).lex_error,
            expr_result(r, final(self).pos(), p_or(old(self).toks(), old(self).pos())),
            r is Ok ==> final(self).pos() > old(self).pos(),
        decreases old(self).tokens@.len() - old(self).position, 3nat,
    {
        let ghost t = self.toks();
        let ghost i0 = self.pos();
        let mut left = match self.parse_unary() {
            Ok(e) => e,
            Err(e) => {
                return Err(e);
            },
        };
        while self.current_kind() == TokenKind::Pipe
            invariant
                self.wf(),
                self.tokens == old(self).tokens,
                self.lex_error == old(self).lex_error,
                self.toks() == t,
                i0 < self.pos(),
                self.tokens@.len() == old(self).tokens@.len(),
                old(self).position == i0,
                p_or(t, i0) == p_or_rest(t, self.pos(), left@),
            decreases self.tokens@.len() - self.position,
        {
            self.advance();
            let right = match self.parse_unary() {
                Ok(e) => e,
                Err(e) => {
                    return Err(e);
                },
            };
            left = Expression::BinaryOp {
                op: BinaryOperator::BitwiseOr,
                left: Box::new(left),
                right: Box::new(right),
            };
        }
        Ok(left)
    }

    fn parse_unary(&mut self) -> (r: Result<Expression, ParseError>)
        requires
            old(self).wf(),
        ensures
            final(self).wf(),
            final(self).tokens == old(self).tokens,
            final(self).lex_error == old(self).lex_error,
            expr_result(r, final(self).pos(), p_unary(old(self).toks(), old(self).pos())),
            r is Ok ==> final(self).pos() > old(self).pos(),
        decreases old(self).tokens@.len() - old(self).position, 2nat,
    {
        match self.current_kind() {
            TokenKind::Star => {
                self.advance();
                match self.parse_unary() {
                    Ok(e) => Ok(Expression::Dereference(Box::new(e))),
                    Err(e) => Err(e),
                }
            },
            TokenKind::Cast => {
                self.advance();
                if let Err(e) = self.expect(TokenKind::LessThan) {
                    return Err(e);
                }
                let target_type = match self.parse_type() {
                    Ok(ty) => ty,
                    Err(e) => {
                        return Err(e);
                    },
                };
                if let Err(e) = self.expect(TokenKind::GreaterThan) {
                    return Err(e);
                }
                if let Err(e) = self.expect(TokenKind::LParen) {
                    return Err(e);
                }
                let value = match self.parse_expression() {
                    Ok(v) => v,
                    Err(e) => {
                        return Err(e);
                    },
                };
                if let Err(e) = self.expect(TokenKind::RParen) {
                    return Err(e);
                }
                Ok(Expression::Cast { target_type, value: Box::new(value) })
            },
            _ => self.parse_primary(),
        }
    }

    fn parse_primary(&mut self) -> (r: Result<Expression, ParseError>)
        requires
            old(self).wf(),
        ensures
            final(self).wf(),
            final(self).tokens == old(self).tokens,
            final(self).lex_error == old(self).lex_error,
            expr_result(r, final(self).pos(), p_primary(old(self).toks(), old(self).pos())),
            r is Ok ==> final(self).pos() > old(self).pos(),
        decreases old(self).tokens@.len() - old(self).position, 1nat,
    {
        let ghost t = self.toks();
        let ghost i0 = self.pos();
        match self.current_kind() {
            TokenKind::Integer => {
                let v = match self.current_integer() {
                    Some(v) => v,
                    None => {
                        return Err(self.unexpected(Expected::Expression));
                    },
                };
                self.advance();
                Ok(Expression::Integer(v))
            },
            TokenKind::Identifier => {
                let name = match self.current_name() {
                    Some(n) => n,
                    None => {
                        return Err(self.unexpected(Expected::Expression));
                    },
                };
                self.advance();
                if self.current_kind() != TokenKind::LParen {
                    return Ok(Expression::Identifier(name));
                }
                self.advance();
                let ghost ia = self.pos();
                let mut args: Vec<Expression> = Vec::new();
                if self.current_kind() == TokenKind::RParen {
                    self.advance();
                    proof {
                        lemma_call_view(name, args);
                    }
                    assert(exprs_view(args@) =~= Seq::<ExprV>::empty());
                    return Ok(Expression::FunctionCall { name, args });
                }
                assert(exprs_view(args@) + Seq::<ExprV>::empty() =~= Seq::<ExprV>::empty());
                loop
                    invariant
                self.wf(),
                self.tokens == old(self).tokens,
                self.lex_error == old(self).lex_error,
                        self.toks() == t,
                        ia <= self.pos(),
                        i0 + 2 == ia,
                        self.tokens@.len() == old(self).tokens@.len(),
                        old(self).position == i0,
                        cur(t, i0) matches TokenV::Identifier(n) && n == name@,
                        cur(t, i0 + 1) == TokenV::LParen,
                        cur(t, ia) != TokenV::RParen,
                        p_arg_list(t, ia) == prepend(exprs_view(args@), p_arg_list(t, self.pos())),
                    decreases self.tokens@.len() - self.position,
                {
                    let ghost old_av = exprs_view(args@);
                    let e = match self.parse_expression() {
                        Ok(e) => e,
                        Err(e) => {
                            return Err(e);
                        },
                    };
                    let ghost ev = e@;
                    args.push(e);
                    proof {
                        assert(exprs_view(args@) =~= old_av.push(ev));
                        assert(old_av + seq![ev] =~= old_av.push(ev));
                        lemma_prepend_assoc(old_av, seq![ev], p_args_tail(t, self.pos()));
                    }
                    if self.current_kind() == TokenKind::Comma {
                        self.advance();
                    } else {
                        match self.expect(TokenKind::RParen) {
                            Ok(_) => {
                                proof {
                                    lemma_call_view(name, args);
                                    assert(exprs_view(args@) + Seq::<ExprV>::empty() =~= exprs_view(args@));
                                }
                                return Ok(Expression::FunctionCall { name, args });
                            },
                            Err(e) => {
                                return Err(e);
                            },
                        }
                    }
                }
            },
            TokenKind::Asm => {
                self.advance();
                if let Err(e) = self.expect(TokenKind::LParen) {
                    return Err(e);
                }
                let code = match self.current_string() {
                    Some(s) => s,
                    None => {
                        return Err(self.unexpected(Expected::Token(TokenKind::StringLiteral)));
                    },
                };
                self.advance();
                if let Err(e) = self.expect(TokenKind::RParen) {
                    return Err(e);
                }
                Ok(Expression::Asm(code))
            },
            TokenKind::LParen => {
                self.advance();
                let e = match self.parse_expression() {
                    Ok(e) => e,
                    Err(e) => {
                        return Err(e);
                    },
                };
                match self.expect(TokenKind::RParen) {
                    Ok(_) => Ok(e),
                    Err(err) => Err(err),
                }
            },
            _ => Err(self.unexpected(Expected::Expression)),
        }
    }

    /// `'(' integer ')'` after an attribute name.
    fn parse_attribute_argument(&mut self) -> (r: Result<u64, ParseError>)
        requires
            old(self).wf(),
        ensures
            final(self).wf(),
            final(self).tokens == old(self).tokens,
            final(self).lex_error == old(self).lex_error,
            match r {
                Ok(v) => p_attr_arg(old(self).toks(), old(self).pos()) == Ok::<(u64, int), ParseErrorV>(
                    (v, final(self).pos()),
                ),
                Err(e) => p_attr_arg(old(self).toks(), old(self).pos()) == Err::<(u64, int), ParseErrorV>(
                    e@,
                ),
            },
            r is Ok ==> final(self).pos() > old(self).pos(),
    {
        if let Err(e) = self.expect(TokenKind::LParen) {
            return Err(e);
        }
        let v = match self.current_integer() {
            Some(v) => v,
            None => {
                return Err(self.unexpected(Expected::Token(TokenKind::Integer)));
            },
        };
        self.advance();
        if let Err(e) = self.expect(TokenKind::RParen) {
            return Err(e);
        }
        Ok(v)
    }

    fn parse_attributes(&mut self) -> (r: Result<Vec<Attribute>, ParseError>)
        requires
            old(self).wf(),
        ensures
            final(self).wf(),
            final(self).tokens == old(self).tokens,
            final(self).lex_error == old(self).lex_error,
            attrs_result(r, final(self).pos(), p_attrs(old(self).toks(), old(self).pos())),
            r is Ok ==> final(self).pos() >= old(self).pos(),
    {
        let ghost t = self.toks();
        let ghost i0 = self.pos();
        let mut attributes: Vec<Attribute> = Vec::new();
        assert(attributes@ + Seq::<Attribute>::empty() =~= Seq::<Attribute>::empty());
        while self.current_kind() == TokenKind::Hash
            invariant
                self.wf(),
                self.tokens == old(self).tokens,
                self.lex_error == old(self).lex_error,
                self.toks() == t,
                i0 <= self.pos(),
                t == old(self).toks(),
                i0 == old(self).pos(),
                p_attrs(t, i0) == prepend(attributes@, p_attrs(t, self.pos())),
            decreases self.tokens@.len() - self.position,
        {
            let ghost before = self.pos();
            self.advance();
            if let Err(e) = self.expect(TokenKind::LBracket) {
                return Err(e);
            }
            let name = match self.current_name() {
                Some(n) => n,
                None => {
                    return Err(self.unexpected(Expected::Token(TokenKind::Identifier)));
                },
            };
            self.advance();
            let attr = if same_text(name.as_str(), "address") {
                match self.parse_attribute_argument() {
                    Ok(v) => Attribute::Address(v),
                    Err(e) => {
                        return Err(e);
                    },
                }
            } else if same_text(name.as_str(), "interrupt") {
                Attribute::Interrupt
            } else if same_text(name.as_str(), "align") {
                match self.parse_attribute_argument() {
                    Ok(v) => Attribute::Align(v),
                    Err(e) => {
                        return Err(e);
                    },
                }
            } else {
                return Err(ParseError::UnknownAttribute(name));
            };
            if let Err(e) = self.expect(TokenKind::RBracket) {
                return Err(e);
            }
            let ghost old_attrs = attributes@;
            proof {
                assert(p_attr(t, before) == Ok::<(Attribute, int), ParseErrorV>((attr, self.pos())));
                lemma_prepend_assoc(attributes@, seq![attr], p_attrs(t, self.pos()));
            }
            attributes.push(attr);
            assert(attributes@ =~= old_attrs + seq![attr]);
        }
        assert(attributes@ + Seq::<Attribute>::empty() =~= attributes@);
        Ok(attributes)
    }
}

pub open spec fn program_result(err: Option<LexError>, t: Seq<TokenV>, i: int) -> Result<
    Seq<ItemV>,
    ParseErrorV,
> {
    match err {
        Some(e) => Err(ParseErrorV::Lexical(e)),
        None => match p_program(t, i) {
            Ok((items, _)) => Ok(items),
            Err(e) => Err(e),
        },
    }
}

pub proof fn lemma_prepend_assoc<A>(a: Seq<A>, b: Seq<A>, r: Result<(Seq<A>, int), ParseErrorV>)
    ensures
        prepend(a, prepend(b, r)) == prepend(a + b, r),
{
    if let Ok((rest, k)) = r {
        assert(a + (b + rest) =~= (a + b) + rest);
    }
}

} // verus!
