//! Lexical analysis: source characters to tokens, one token per call.
use vstd::prelude::*;

use crate::text::{
    char_is_alphabetic, char_is_alphanumeric, char_is_whitespace, chars_equal, chars_of,
    dec_digit_value, dec_value, hex_digit_value, hex_value, is_alnum, is_alpha, is_dec_digit,
    is_hex_digit, is_space, string_from, char_byte_offsets, utf8_len,
};

verus! {

#[derive(Debug, PartialEq, Eq)]
pub enum Token {
    // keywords
    Fn,
    Let,
    Volatile,
    Cast,
    Unsafe,
    Loop,
    Asm,
    // names and literals
    Identifier(String),
    Integer(u64),
    StringLiteral(String),
    // punctuation
    Arrow,
    Colon,
    SemiColon,
    Equals,
    Star,
    Pipe,
    LParen,
    RParen,
    LBrace,
    RBrace,
    LBracket,
    RBracket,
    Comma,
    Hash,
    LessThan,
    GreaterThan,
    Plus,
    Minus,
    // end of input
    EOF,
}

/// Model of a token.
pub enum TokenV {
    Fn,
    Let,
    Volatile,
    Cast,
    Unsafe,
    Loop,
    Asm,
    Identifier(Seq<char>),
    Integer(u64),
    StringLiteral(Seq<char>),
    Arrow,
    Colon,
    SemiColon,
    Equals,
    Star,
    Pipe,
    LParen,
    RParen,
    LBrace,
    RBrace,
    LBracket,
    RBracket,
    Comma,
    Hash,
    LessThan,
    GreaterThan,
    Plus,
    Minus,
    EOF,
}

/// A token without its payload.
#[derive(Debug, Clone, Copy, PartialEq, Eq, Structural)]
pub enum TokenKind {
    Fn,
    Let,
    Volatile,
    Cast,
    Unsafe,
    Loop,
    Asm,
    Identifier,
    Integer,
    StringLiteral,
    Arrow,
    Colon,
    SemiColon,
    Equals,
    Star,
    Pipe,
    LParen,
    RParen,
    LBrace,
    RBrace,
    LBracket,
    RBracket,
    Comma,
    Hash,
    LessThan,
    GreaterThan,
    Plus,
    Minus,
    EOF,
}

impl View for Token {
    type V = TokenV;

    open spec fn view(&self) -> TokenV {
        match self {
            Token::Fn => TokenV::Fn,
            Token::Let => TokenV::Let,
            Token::Volatile => TokenV::Volatile,
            Token::Cast => TokenV::Cast,
            Token::Unsafe => TokenV::Unsafe,
            Token::Loop => TokenV::Loop,
            Token::Asm => TokenV::Asm,
            Token::Arrow => TokenV::Arrow,
            Token::Colon => TokenV::Colon,
            Token::SemiColon => TokenV::SemiColon,
            Token::Equals => TokenV::Equals,
            Token::Star => TokenV::Star,
            Token::Pipe => TokenV::Pipe,
            Token::LParen => TokenV::LParen,
            Token::RParen => TokenV::RParen,
            Token::LBrace => TokenV::LBrace,
            Token::RBrace => TokenV::RBrace,
            Token::LBracket => TokenV::LBracket,
            Token::RBracket => TokenV::RBracket,
            Token::Comma => TokenV::Comma,
            Token::Hash => TokenV::Hash,
            Token::LessThan => TokenV::LessThan,
            Token::GreaterThan => TokenV::GreaterThan,
            Token::Plus => TokenV::Plus,
            Token::Minus => TokenV::Minus,
            Token::EOF => TokenV::EOF,
            Token::Identifier(n) => TokenV::Identifier(n@),
            Token::Integer(v) => TokenV::Integer(*v),
            Token::StringLiteral(s) => TokenV::StringLiteral(s@),
        }
    }
}

/// The kind of a token.
pub open spec fn kind_of(t: TokenV) -> TokenKind {
    match t {
        TokenV::Fn => TokenKind::Fn,
        TokenV::Let => TokenKind::Let,
        TokenV::Volatile => TokenKind::Volatile,
        TokenV::Cast => TokenKind::Cast,
        TokenV::Unsafe => TokenKind::Unsafe,
        TokenV::Loop => TokenKind::Loop,
        TokenV::Asm => TokenKind::Asm,
        TokenV::Arrow => TokenKind::Arrow,
        TokenV::Colon => TokenKind::Colon,
        TokenV::SemiColon => TokenKind::SemiColon,
        TokenV::Equals => TokenKind::Equals,
        TokenV::Star => TokenKind::Star,
        TokenV::Pipe => TokenKind::Pipe,
        TokenV::LParen => TokenKind::LParen,
        TokenV::RParen => TokenKind::RParen,
        TokenV::LBrace => TokenKind::LBrace,
        TokenV::RBrace => TokenKind::RBrace,
        TokenV::LBracket => TokenKind::LBracket,
        TokenV::RBracket => TokenKind::RBracket,
        TokenV::Comma => TokenKind::Comma,
        TokenV::Hash => TokenKind::Hash,
        TokenV::LessThan => TokenKind::LessThan,
        TokenV::GreaterThan => TokenKind::GreaterThan,
        TokenV::Plus => TokenKind::Plus,
        TokenV::Minus => TokenKind::Minus,
        TokenV::EOF => TokenKind::EOF,
        TokenV::Identifier(_) => TokenKind::Identifier,
        TokenV::Integer(_) => TokenKind::Integer,
        TokenV::StringLiteral(_) => TokenKind::StringLiteral,
    }
}

impl Token {
    pub fn kind(&self) -> (r: TokenKind)
        ensures
            r == kind_of(self@),
    {
        match self {
            Token::Fn => TokenKind::Fn,
            Token::Let => TokenKind::Let,
            Token::Volatile => TokenKind::Volatile,
            Token::Cast => TokenKind::Cast,
            Token::Unsafe => TokenKind::Unsafe,
            Token::Loop => TokenKind::Loop,
            Token::Asm => TokenKind::Asm,
            Token::Arrow => TokenKind::Arrow,
            Token::Colon => TokenKind::Colon,
            Token::SemiColon => TokenKind::SemiColon,
            Token::Equals => TokenKind::Equals,
            Token::Star => TokenKind::Star,
            Token::Pipe => TokenKind::Pipe,
            Token::LParen => TokenKind::LParen,
            Token::RParen => TokenKind::RParen,
            Token::LBrace => TokenKind::LBrace,
            Token::RBrace => TokenKind::RBrace,
            Token::LBracket => TokenKind::LBracket,
            Token::RBracket => TokenKind::RBracket,
            Token::Comma => TokenKind::Comma,
            Token::Hash => TokenKind::Hash,
            Token::LessThan => TokenKind::LessThan,
            Token::GreaterThan => TokenKind::GreaterThan,
            Token::Plus => TokenKind::Plus,
            Token::Minus => TokenKind::Minus,
            Token::EOF => TokenKind::EOF,
            Token::Identifier(_) => TokenKind::Identifier,
            Token::Integer(_) => TokenKind::Integer,
            Token::StringLiteral(_) => TokenKind::StringLiteral,
        }
    }

    /// A copy of this token.
    pub fn duplicate(&self) -> (r: Token)
        ensures
            r@ == self@,
    {
        match self {
            Token::Fn => Token::Fn,
            Token::Let => Token::Let,
            Token::Volatile => Token::Volatile,
            Token::Cast => Token::Cast,
            Token::Unsafe => Token::Unsafe,
            Token::Loop => Token::Loop,
            Token::Asm => Token::Asm,
            Token::Arrow => Token::Arrow,
            Token::Colon => Token::Colon,
            Token::SemiColon => Token::SemiColon,
            Token::Equals => Token::Equals,
            Token::Star => Token::Star,
            Token::Pipe => Token::Pipe,
            Token::LParen => Token::LParen,
            Token::RParen => Token::RParen,
            Token::LBrace => Token::LBrace,
            Token::RBrace => Token::RBrace,
            Token::LBracket => Token::LBracket,
            Token::RBracket => Token::RBracket,
            Token::Comma => Token::Comma,
            Token::Hash => Token::Hash,
            Token::LessThan => Token::LessThan,
            Token::GreaterThan => Token::GreaterThan,
            Token::Plus => Token::Plus,
            Token::Minus => Token::Minus,
            Token::EOF => Token::EOF,
            Token::Identifier(n) => Token::Identifier(n.clone()),
            Token::Integer(v) => Token::Integer(*v),
            Token::StringLiteral(s) => Token::StringLiteral(s.clone()),
        }
    }
}

/// A lexical failure, with the byte offset in the source where it was found.
#[derive(Debug, Clone, Copy, PartialEq, Eq, Structural)]
pub enum LexError {
    /// A character that starts no token.
    UnexpectedChar { ch: char, pos: usize },
    /// A numeric literal with no digits after `0x`, or beyond 64 bits.
    MalformedNumber { pos: usize },
    /// A string literal with no closing quote.
    UnterminatedString { pos: usize },
}

/// The classes of characters that the lexer scans runs of.
#[derive(Debug, Clone, Copy, PartialEq, Eq, Structural)]
pub enum CharClass {
    Space,
    Word,
    Decimal,
    Hex,
    LineBody,
    StringBody,
}

pub open spec fn in_class(cls: CharClass, c: char) -> bool {
    match cls {
        CharClass::Space => is_space(c),
        CharClass::Word => is_alnum(c) || c == '_',
        CharClass::Decimal => is_dec_digit(c),
        CharClass::Hex => is_hex_digit(c),
        CharClass::LineBody => c != '\n',
        CharClass::StringBody => c != '"',
    }
}

/// Length of the run of characters of class `cls` that starts at `i`.
pub open spec fn run(s: Seq<char>, i: int, cls: CharClass) -> nat
    decreases s.len() - i,
{
    if 0 <= i < s.len() && in_class(cls, s[i]) {
        1 + run(s, i + 1, cls)
    } else {
        0
    }
}

/// The byte offset of the character at position `p`.
pub open spec fn byte_pos(s: Seq<char>, p: int) -> usize {
    utf8_len(s.subrange(0, p)) as usize
}

/// The character at `i`, or NUL past either end.
pub open spec fn char_at(s: Seq<char>, i: int) -> char {
    if 0 <= i < s.len() {
        s[i]
    } else {
        '\0'
    }
}

/// The token that a word spells: a keyword, else an identifier.
pub open spec fn word_token(w: Seq<char>) -> TokenV {
    if w == "fn"@ {
        TokenV::Fn
    } else if w == "let"@ {
        TokenV::Let
    } else if w == "volatile"@ {
        TokenV::Volatile
    } else if w == "cast"@ {
        TokenV::Cast
    } else if w == "unsafe"@ {
        TokenV::Unsafe
    } else if w == "loop"@ {
        TokenV::Loop
    } else if w == "asm"@ {
        TokenV::Asm
    } else {
        TokenV::Identifier(w)
    }
}

/// The token that a punctuation character stands for by itself.
pub open spec fn symbol_token(c: char) -> Option<TokenV> {
    if c == ':' {
        Some(TokenV::Colon)
    } else if c == ';' {
        Some(TokenV::SemiColon)
    } else if c == '=' {
        Some(TokenV::Equals)
    } else if c == '*' {
        Some(TokenV::Star)
    } else if c == '|' {
        Some(TokenV::Pipe)
    } else if c == '(' {
        Some(TokenV::LParen)
    } else if c == ')' {
        Some(TokenV::RParen)
    } else if c == '{' {
        Some(TokenV::LBrace)
    } else if c == '}' {
        Some(TokenV::RBrace)
    } else if c == '[' {
        Some(TokenV::LBracket)
    } else if c == ']' {
        Some(TokenV::RBracket)
    } else if c == ',' {
        Some(TokenV::Comma)
    } else if c == '#' {
        Some(TokenV::Hash)
    } else if c == '<' {
        Some(TokenV::LessThan)
    } else if c == '>' {
        Some(TokenV::GreaterThan)
    } else if c == '+' {
        Some(TokenV::Plus)
    } else {
        None
    }
}

pub open spec fn starts_hex(s: Seq<char>, p: int) -> bool {
    char_at(s, p) == '0' && (char_at(s, p + 1) == 'x' || char_at(s, p + 1) == 'X')
}

/// A numeric literal that starts at `p`: the token or error, and where lexing goes on.
pub open spec fn lex_number(s: Seq<char>, p: int) -> (Result<TokenV, LexError>, int) {
    if starts_hex(s, p) {
        let e = p + 2 + run(s, p + 2, CharClass::Hex);
        let v = hex_value(s.subrange(p + 2, e));
        if e == p + 2 || v > u64::MAX {
            (Err(LexError::MalformedNumber { pos: byte_pos(s, p) }), p)
        } else {
            (Ok(TokenV::Integer(v as u64)), e)
        }
    } else {
        let e = p + run(s, p, CharClass::Decimal);
        let v = dec_value(s.subrange(p, e));
        if v > u64::MAX {
            (Err(LexError::MalformedNumber { pos: byte_pos(s, p) }), p)
        } else {
            (Ok(TokenV::Integer(v as u64)), e)
        }
    }
}

/// The next token of `s` from position `pos` on, and the position after it.
/// At the end of input this is the end marker, and the position stays there.
pub open spec fn lex(s: Seq<char>, pos: int) -> (Result<TokenV, LexError>, int)
    decreases s.len() - pos,
{
    let p = pos + run(s, pos, CharClass::Space);
    if p < 0 || p >= s.len() {
        (Ok(TokenV::EOF), p)
    } else {
        let c = s[p];
        if is_alpha(c) || c == '_' {
            let e = p + 1 + run(s, p + 1, CharClass::Word);
            (Ok(word_token(s.subrange(p, e))), e)
        } else if is_dec_digit(c) {
            lex_number(s, p)
        } else if c == '-' {
            if char_at(s, p + 1) == '>' {
                (Ok(TokenV::Arrow), p + 2)
            } else {
                (Ok(TokenV::Minus), p + 1)
            }
        } else if c == '/' {
            if char_at(s, p + 1) == '/' {
                let q = p + 2 + run(s, p + 2, CharClass::LineBody);
                if q <= s.len() {
                    lex(s, q)
                } else {
                    (Ok(TokenV::EOF), q)
                }
            } else {
                (Err(LexError::UnexpectedChar { ch: c, pos: byte_pos(s, p) }), p)
            }
        } else if c == '"' {
            let e = p + 1 + run(s, p + 1, CharClass::StringBody);
            if e >= s.len() {
                (Err(LexError::UnterminatedString { pos: byte_pos(s, p) }), p)
            } else {
                (Ok(TokenV::StringLiteral(s.subrange(p + 1, e))), e + 1)
            }
        } else {
            match symbol_token(c) {
                Some(t) => (Ok(t), p + 1),
                None => (Err(LexError::UnexpectedChar { ch: c, pos: byte_pos(s, p) }), p),
            }
        }
    }
}

pub open spec fn lex_result_view(r: Result<Token, LexError>) -> Result<TokenV, LexError> {
    match r {
        Ok(t) => Ok(t@),
        Err(e) => Err(e),
    }
}

pub proof fn lemma_run_bound(s: Seq<char>, i: int, cls: CharClass)
    requires
        0 <= i <= s.len(),
    ensures
        i + run(s, i, cls) <= s.len(),
    decreases s.len() - i,
{
    if i < s.len() && in_class(cls, s[i]) {
        lemma_run_bound(s, i + 1, cls);
    }
}

/// Each token that is not the end marker takes at least one character, and
/// lexing never moves past the end of input.
pub proof fn lemma_lex_progress(s: Seq<char>, pos: int)
    requires
        0 <= pos <= s.len(),
    ensures
        pos <= lex(s, pos).1 <= s.len(),
        lex(s, pos).0 matches Ok(t) && t != TokenV::EOF ==> lex(s, pos).1 > pos,
    decreases s.len() - pos,
{
    lemma_run_bound(s, pos, CharClass::Space);
    let p = pos + run(s, pos, CharClass::Space);
    if 0 <= p < s.len() {
        lemma_run_bound(s, p + 1, CharClass::Word);
        lemma_run_bound(s, p + 1, CharClass::StringBody);
        if starts_hex(s, p) {
            lemma_run_bound(s, p + 2, CharClass::Hex);
        }
        lemma_run_bound(s, p, CharClass::Decimal);
        assert(in_class(CharClass::Decimal, s[p]) ==> run(s, p, CharClass::Decimal) >= 1);
        if s[p] == '/' && char_at(s, p + 1) == '/' {
            lemma_run_bound(s, p + 2, CharClass::LineBody);
            lemma_lex_progress(s, p + 2 + run(s, p + 2, CharClass::LineBody));
        }
    }
}

proof fn lemma_dec_prefix(d: Seq<char>, k: int)
    requires
        0 <= k <= d.len(),
    ensures
        dec_value(d.subrange(0, k)) <= dec_value(d),
    decreases d.len(),
{
    if k < d.len() {
        lemma_dec_prefix(d.drop_last(), k);
        assert(d.drop_last().subrange(0, k) =~= d.subrange(0, k));
    } else {
        assert(d.subrange(0, k) =~= d);
    }
}

proof fn lemma_hex_prefix(d: Seq<char>, k: int)
    requires
        0 <= k <= d.len(),
    ensures
        hex_value(d.subrange(0, k)) <= hex_value(d),
    decreases d.len(),
{
    if k < d.len() {
        lemma_hex_prefix(d.drop_last(), k);
        assert(d.drop_last().subrange(0, k) =~= d.subrange(0, k));
    } else {
        assert(d.subrange(0, k) =~= d);
    }
}

/// The value of the digits `input[start..end]`, in base 10 or 16, unless it exceeds 64 bits.
fn digits_value(input: &Vec<char>, start: usize, end: usize, hex: bool) -> (r: Option<u64>)
    requires
        start <= end <= input@.len(),
        forall|k: int|
            start <= k < end ==> (if hex {
                is_hex_digit(#[trigger] input@[k])
            } else {
                is_dec_digit(input@[k])
            }),
    ensures
        ({
            let v = if hex {
                hex_value(input@.subrange(start as int, end as int))
            } else {
                dec_value(input@.subrange(start as int, end as int))
            };
            match r {
                Some(x) => v <= u64::MAX && x == v,
                None => v > u64::MAX,
            }
        }),
{
    let base: u128 = if hex { 16 } else { 10 };
    let mut v: u64 = 0;
    let mut i: usize = start;
    while i < end
        invariant
            start <= i <= end <= input@.len(),
            base == (if hex { 16u128 } else { 10u128 }),
            forall|k: int|
                start <= k < end ==> (if hex {
                    is_hex_digit(#[trigger] input@[k])
                } else {
                    is_dec_digit(input@[k])
                }),
            v == (if hex {
                hex_value(input@.subrange(start as int, i as int))
            } else {
                dec_value(input@.subrange(start as int, i as int))
            }),
        decreases end - i,
    {
        let c = input[i];
        let d: u128 = digit_of(c, hex);
        let next: u128 = v as u128 * base + d;
        let ghost sub = input@.subrange(start as int, i as int + 1);
        proof {
            assert(sub.drop_last() =~= input@.subrange(start as int, i as int));
            assert(sub.last() == c);
        }
        if next > u64::MAX as u128 {
            proof {
                let whole = input@.subrange(start as int, end as int);
                assert(whole.subrange(0, i - start + 1) =~= sub);
                if hex {
                    lemma_hex_prefix(whole, i - start + 1);
                } else {
                    lemma_dec_prefix(whole, i - start + 1);
                }
            }
            return None;
        }
        v = next as u64;
        i = i + 1;
    }
    Some(v)
}

fn digit_of(c: char, hex: bool) -> (d: u128)
    requires
        if hex {
            is_hex_digit(c)
        } else {
            is_dec_digit(c)
        },
    ensures
        d == (if hex {
            hex_digit_value(c)
        } else {
            dec_digit_value(c)
        }),
        d < 16,
{
    if '0' <= c && c <= '9' {
        (c as u32 - '0' as u32) as u128
    } else if 'a' <= c && c <= 'f' {
        (c as u32 - 'a' as u32 + 10) as u128
    } else {
        (c as u32 - 'A' as u32 + 10) as u128
    }
}

fn class_contains(cls: CharClass, c: char) -> (r: bool)
    ensures
        r == in_class(cls, c),
{
    match cls {
        CharClass::Space => char_is_whitespace(c),
        CharClass::Word => char_is_alphanumeric(c) || c == '_',
        CharClass::Decimal => '0' <= c && c <= '9',
        CharClass::Hex => ('0' <= c && c <= '9') || ('a' <= c && c <= 'f') || ('A' <= c && c <= 'F'),
        CharClass::LineBody => c != '\n',
        CharClass::StringBody => c != '"',
    }
}

fn symbol(c: char) -> (r: Option<Token>)
    ensures
        match r {
            Some(t) => symbol_token(c) == Some(t@),
            None => symbol_token(c) is None,
        },
{
    match c {
        ':' => Some(Token::Colon),
        ';' => Some(Token::SemiColon),
        '=' => Some(Token::Equals),
        '*' => Some(Token::Star),
        '|' => Some(Token::Pipe),
        '(' => Some(Token::LParen),
        ')' => Some(Token::RParen),
        '{' => Some(Token::LBrace),
        '}' => Some(Token::RBrace),
        '[' => Some(Token::LBracket),
        ']' => Some(Token::RBracket),
        ',' => Some(Token::Comma),
        '#' => Some(Token::Hash),
        '<' => Some(Token::LessThan),
        '>' => Some(Token::GreaterThan),
        '+' => Some(Token::Plus),
        _ => None,
    }
}

/// A pull-based lexer over a source text.
pub struct Lexer {
    input: Vec<char>,
    // byte offset of each character
    offsets: Vec<usize>,
    position: usize,
}

impl Lexer {
    /// The source text being lexed.
    pub closed spec fn source(&self) -> Seq<char> {
        self.input@
    }

    /// The position, in characters, of the next unread character.
    pub closed spec fn pos(&self) -> int {
        self.position as int
    }

    pub closed spec fn wf(&self) -> bool {
        &&& self.position <= self.input@.len() <= usize::MAX
        &&& self.offsets@.len() == self.input@.len()
        &&& forall|k: int|
            0 <= k < self.input@.len() ==> self.offsets@[k] == utf8_len(
                #[trigger] self.input@.subrange(0, k),
            )
    }

    /// The byte offset of the character at `p`.
    fn offset_of(&self, p: usize) -> (r: usize)
        requires
            self.wf(),
            p < self.input@.len(),
        ensures
            r == byte_pos(self.input@, p as int),
    {
        self.offsets[p]
    }

    pub proof fn lemma_wf(&self)
        requires
            self.wf(),
        ensures
            0 <= self.pos() <= self.source().len() <= usize::MAX,
    {
    }

    pub fn new(input: &str) -> (r: Lexer)
        ensures
            r.wf(),
            r.source() == input@,
            r.pos() == 0,
    {
        let chars = chars_of(input);
        // reading the length tells the verifier that it fits in a usize
        let _ = chars.len();
        let offsets = char_byte_offsets(input);
        Lexer { input: chars, offsets, position: 0 }
    }

    /// The next token, or the lexical error found at this point. At the end of
    /// input it returns `EOF` on every call.
    pub fn next_token(&mut self) -> (r: Result<Token, LexError>)
        requires
            old(self).wf(),
        ensures
            final(self).wf(),
            final(self).source() == old(self).source(),
            (lex_result_view(r), final(self).pos()) == lex(old(self).source(), old(self).pos()),
        decreases old(self).source().len() - old(self).pos(),
    {
        self.skip_whitespace();
        if self.position >= self.input.len() {
            return Ok(Token::EOF);
        }
        let ch = self.input[self.position];
        if char_is_alphabetic(ch) || ch == '_' {
            return Ok(self.read_identifier_or_keyword());
        }
        if '0' <= ch && ch <= '9' {
            return self.read_number();
        }
        if ch == '-' {
            if self.peek() == '>' {
                self.position = self.position + 2;
                return Ok(Token::Arrow);
            }
            self.position = self.position + 1;
            return Ok(Token::Minus);
        }
        if ch == '/' {
            if self.peek() == '/' {
                self.skip_comment();
                return self.next_token();
            }
            return Err(LexError::UnexpectedChar { ch, pos: self.offset_of(self.position) });
        }
        if ch == '"' {
            return self.read_string();
        }
        match symbol(ch) {
            Some(t) => {
                self.position = self.position + 1;
                Ok(t)
            },
            None => Err(LexError::UnexpectedChar { ch, pos: self.offset_of(self.position) }),
        }
    }

    /// The end of the run of class `cls` that starts at `start`.
    fn scan(&self, start: usize, cls: CharClass) -> (e: usize)
        requires
            start <= self.input@.len(),
        ensures
            e == start + run(self.input@, start as int, cls),
            e <= self.input@.len(),
    {
        let mut i = start;
        while i < self.input.len() && class_contains(cls, self.input[i])
            invariant
                start <= i <= self.input@.len(),
                start + run(self.input@, start as int, cls) == i + run(self.input@, i as int, cls),
            decreases self.input@.len() - i,
        {
            i = i + 1;
        }
        i
    }

    fn skip_whitespace(&mut self)
        requires
            old(self).wf(),
        ensures
            final(self).wf(),
            final(self).input == old(self).input,
            final(self).position == old(self).position + run(
                old(self).input@,
                old(self).position as int,
                CharClass::Space,
            ),
    {
        self.position = self.scan(self.position, CharClass::Space);
    }

    /// Skips a line comment: everything up to the end of the line.
    fn skip_comment(&mut self)
        requires
            old(self).wf(),
            old(self).position + 2 <= old(self).input@.len(),
        ensures
            final(self).wf(),
            final(self).input == old(self).input,
            final(self).position == old(self).position + 2 + run(
                old(self).input@,
                old(self).position + 2,
                CharClass::LineBody,
            ),
    {
        let p = self.position;
        self.position = self.scan(p + 2, CharClass::LineBody);
    }

    /// The character after the current one, or NUL.
    fn peek(&self) -> (c: char)
        requires
            self.wf(),
            self.position < self.input@.len(),
        ensures
            c == char_at(self.input@, self.position + 1),
    {
        if self.position >= self.input.len() - 1 {
            '\0'
        } else {
            self.input[self.position + 1]
        }
    }

    fn read_identifier_or_keyword(&mut self) -> (r: Token)
        requires
            old(self).wf(),
            old(self).position < old(self).input@.len(),
        ensures
            final(self).wf(),
            final(self).input == old(self).input,
            final(self).position == old(self).position + 1 + run(
                old(self).input@,
                old(self).position + 1,
                CharClass::Word,
            ),
            r@ == word_token(
                old(self).input@.subrange(old(self).position as int, final(self).position as int),
            ),
    {
        let start = self.position;
        let end = self.scan(start + 1, CharClass::Word);
        self.position = end;
        if chars_equal(&self.input, start, end, "fn") {
            Token::Fn
        } else if chars_equal(&self.input, start, end, "let") {
            Token::Let
        } else if chars_equal(&self.input, start, end, "volatile") {
            Token::Volatile
        } else if chars_equal(&self.input, start, end, "cast") {
            Token::Cast
        } else if chars_equal(&self.input, start, end, "unsafe") {
            Token::Unsafe
        } else if chars_equal(&self.input, start, end, "loop") {
            Token::Loop
        } else if chars_equal(&self.input, start, end, "asm") {
            Token::Asm
        } else {
            Token::Identifier(string_from(&self.input, start, end))
        }
    }

    fn read_number(&mut self) -> (r: Result<Token, LexError>)
        requires
            old(self).wf(),
            old(self).position < old(self).input@.len(),
        ensures
            final(self).wf(),
            final(self).input == old(self).input,
            (lex_result_view(r), final(self).position as int) == lex_number(
                old(self).input@,
                old(self).position as int,
            ),
    {
        let start = self.position;
        let hex = self.input[start] == '0' && (self.peek() == 'x' || self.peek() == 'X');
        let digits = if hex {
            assert(char_at(self.input@, start + 1) == 'x' || char_at(self.input@, start + 1) == 'X');
            start + 2
        } else {
            start
        };
        let end = self.scan(digits, if hex { CharClass::Hex } else { CharClass::Decimal });
        proof {
            let cls = if hex { CharClass::Hex } else { CharClass::Decimal };
            lemma_run_members(self.input@, digits as int, cls);
        }
        if hex && end == digits {
            return Err(LexError::MalformedNumber { pos: self.offset_of(start) });
        }
        match digits_value(&self.input, digits, end, hex) {
            Some(v) => {
                self.position = end;
                Ok(Token::Integer(v))
            },
            None => Err(LexError::MalformedNumber { pos: self.offset_of(start) }),
        }
    }

    fn read_string(&mut self) -> (r: Result<Token, LexError>)
        requires
            old(self).wf(),
            old(self).position < old(self).input@.len(),
        ensures
            final(self).wf(),
            final(self).input == old(self).input,
            ({
                let s = old(self).input@;
                let p = old(self).position as int;
                let e = p + 1 + run(s, p + 1, CharClass::StringBody);
                (lex_result_view(r), final(self).position as int) == if e >= s.len() {
                    (Err(LexError::UnterminatedString { pos: byte_pos(s, p) }), p)
                } else {
                    (Ok(TokenV::StringLiteral(s.subrange(p + 1, e))), e + 1)
                }
            }),
    {
        let start = self.position;
        assert(start < self.input@.len());
        let end = self.scan(start + 1, CharClass::StringBody);
        if end >= self.input.len() {
            return Err(LexError::UnterminatedString { pos: self.offset_of(start) });
        }
        let text = string_from(&self.input, start + 1, end);
        self.position = end + 1;
        Ok(Token::StringLiteral(text))
    }
}

proof fn lemma_run_members(s: Seq<char>, i: int, cls: CharClass)
    requires
        0 <= i <= s.len(),
    ensures
        forall|k: int| i <= k < i + run(s, i, cls) ==> in_class(cls, #[trigger] s[k]),
    decreases s.len() - i,
{
    if i < s.len() && in_class(cls, s[i]) {
        lemma_run_members(s, i + 1, cls);
    }
}

} // verus!
