//! The program tree that the parser builds and the backends read, with its
//! mathematical model (names as character sequences, lists as `Seq`).
use vstd::prelude::*;

verus! {

#[derive(Debug, PartialEq, Eq)]
pub enum Type {
    U8,
    U16,
    U32,
    U64,
    I8,
    I16,
    I32,
    I64,
    F32,
    F64,
    Bool,
    Void,
    Pointer(Box<Type>),
}

#[derive(Debug, Clone, Copy, PartialEq, Eq, Structural)]
pub enum Attribute {
    Address(u64),
    Interrupt,
    Align(u64),
}

#[derive(Debug, Clone, Copy, PartialEq, Eq, Structural)]
pub enum BinaryOperator {
    BitwiseOr,
}

#[derive(Debug, PartialEq, Eq)]
pub struct GlobalVariable {
    pub name: String,
    pub ty: Type,
    pub is_volatile: bool,
    pub attributes: Vec<Attribute>,
}

#[derive(Debug, PartialEq, Eq)]
pub struct Function {
    pub name: String,
    pub return_type: Type,
    pub attributes: Vec<Attribute>,
    pub body: Vec<Statement>,
}

#[derive(Debug, PartialEq, Eq)]
pub enum Statement {
    Let { name: String, ty: Type, value: Expression, is_volatile: bool },
    UnsafeBlock(Vec<Statement>),
    LoopBlock(Vec<Statement>),
    ExpressionStmt(Expression),
    Assignment { target: Expression, value: Expression },
}

#[derive(Debug, PartialEq, Eq)]
pub enum Expression {
    Integer(u64),
    Identifier(String),
    Cast { target_type: Type, value: Box<Expression> },
    Dereference(Box<Expression>),
    BinaryOp { op: BinaryOperator, left: Box<Expression>, right: Box<Expression> },
    FunctionCall { name: String, args: Vec<Expression> },
    Asm(String),
}

#[derive(Debug, PartialEq, Eq)]
pub enum TopLevelItem {
    GlobalVariable(GlobalVariable),
    Function(Function),
}

#[derive(Debug, PartialEq, Eq)]
pub struct Program {
    pub items: Vec<TopLevelItem>,
}

/// The name of the function that a program starts at.
pub open spec fn entry_name() -> Seq<char> {
    "kernel_main"@
}

/// Model of an expression.
pub enum ExprV {
    Integer(u64),
    Identifier(Seq<char>),
    Cast(Type, Box<ExprV>),
    Dereference(Box<ExprV>),
    BinaryOp(BinaryOperator, Box<ExprV>, Box<ExprV>),
    FunctionCall(Seq<char>, Seq<ExprV>),
    Asm(Seq<char>),
}

/// Model of a statement.
pub enum StmtV {
    Let { name: Seq<char>, ty: Type, value: ExprV, is_volatile: bool },
    UnsafeBlock(Seq<StmtV>),
    LoopBlock(Seq<StmtV>),
    ExpressionStmt(ExprV),
    Assignment { target: ExprV, value: ExprV },
}

pub struct GlobalV {
    pub name: Seq<char>,
    pub ty: Type,
    pub is_volatile: bool,
    pub attributes: Seq<Attribute>,
}

pub struct FunctionV {
    pub name: Seq<char>,
    pub return_type: Type,
    pub attributes: Seq<Attribute>,
    pub body: Seq<StmtV>,
}

pub enum ItemV {
    Global(GlobalV),
    Function(FunctionV),
}

/// Model of an expression.
pub open spec fn expr_view(e: Expression) -> ExprV
    decreases e,
{
    match e {
        Expression::Integer(v) => ExprV::Integer(v),
        Expression::Identifier(n) => ExprV::Identifier(n@),
        Expression::Cast { target_type, value } => ExprV::Cast(target_type, Box::new(expr_view(*value))),
        Expression::Dereference(inner) => ExprV::Dereference(Box::new(expr_view(*inner))),
        Expression::BinaryOp { op, left, right } => ExprV::BinaryOp(
            op,
            Box::new(expr_view(*left)),
            Box::new(expr_view(*right)),
        ),
        Expression::FunctionCall { name, args } => ExprV::FunctionCall(
            name@,
            Seq::new(
                args@.len(),
                |i: int|
                    if 0 <= i < args@.len() {
                        expr_view(args@[i])
                    } else {
                        ExprV::Integer(0)
                    },
            ),
        ),
        Expression::Asm(code) => ExprV::Asm(code@),
    }
}

/// Model of a statement.
pub open spec fn stmt_view(st: Statement) -> StmtV
    decreases st,
{
    match st {
        Statement::Let { name, ty, value, is_volatile } => StmtV::Let {
            name: name@,
            ty,
            value: expr_view(value),
            is_volatile,
        },
        Statement::UnsafeBlock(b) => StmtV::UnsafeBlock(
            Seq::new(
                b@.len(),
                |i: int|
                    if 0 <= i < b@.len() {
                        stmt_view(b@[i])
                    } else {
                        StmtV::UnsafeBlock(Seq::empty())
                    },
            ),
        ),
        Statement::LoopBlock(b) => StmtV::LoopBlock(
            Seq::new(
                b@.len(),
                |i: int|
                    if 0 <= i < b@.len() {
                        stmt_view(b@[i])
                    } else {
                        StmtV::UnsafeBlock(Seq::empty())
                    },
            ),
        ),
        Statement::ExpressionStmt(e) => StmtV::ExpressionStmt(expr_view(e)),
        Statement::Assignment { target, value } => StmtV::Assignment {
            target: expr_view(target),
            value: expr_view(value),
        },
    }
}

impl View for Expression {
    type V = ExprV;

    open spec fn view(&self) -> ExprV {
        expr_view(*self)
    }
}

impl View for Statement {
    type V = StmtV;

    open spec fn view(&self) -> StmtV {
        stmt_view(*self)
    }
}

/// Model of a list of statements.
pub open spec fn stmts_view(v: Seq<Statement>) -> Seq<StmtV> {
    v.map_values(|s: Statement| s@)
}

/// Model of a list of expressions.
pub open spec fn exprs_view(v: Seq<Expression>) -> Seq<ExprV> {
    v.map_values(|e: Expression| e@)
}

impl View for GlobalVariable {
    type V = GlobalV;

    open spec fn view(&self) -> GlobalV {
        GlobalV {
            name: self.name@,
            ty: self.ty,
            is_volatile: self.is_volatile,
            attributes: self.attributes@,
        }
    }
}

impl View for Function {
    type V = FunctionV;

    open spec fn view(&self) -> FunctionV {
        FunctionV {
            name: self.name@,
            return_type: self.return_type,
            attributes: self.attributes@,
            body: stmts_view(self.body@),
        }
    }
}

impl View for TopLevelItem {
    type V = ItemV;

    open spec fn view(&self) -> ItemV {
        match self {
            TopLevelItem::GlobalVariable(g) => ItemV::Global(g@),
            TopLevelItem::Function(f) => ItemV::Function(f@),
        }
    }
}

/// Model of a list of top-level items.
pub open spec fn items_view(v: Seq<TopLevelItem>) -> Seq<ItemV> {
    v.map_values(|i: TopLevelItem| i@)
}

impl View for Program {
    type V = Seq<ItemV>;

    open spec fn view(&self) -> Seq<ItemV> {
        items_view(self.items@)
    }
}

pub proof fn lemma_block_view(b: Vec<Statement>)
    ensures
        (Statement::UnsafeBlock(b))@ == StmtV::UnsafeBlock(stmts_view(b@)),
        (Statement::LoopBlock(b))@ == StmtV::LoopBlock(stmts_view(b@)),
{
    assert(((Statement::UnsafeBlock(b))@)->UnsafeBlock_0 =~= stmts_view(b@));
    assert(((Statement::LoopBlock(b))@)->LoopBlock_0 =~= stmts_view(b@));
}

pub proof fn lemma_call_view(name: String, args: Vec<Expression>)
    ensures
        (Expression::FunctionCall { name, args })@ == ExprV::FunctionCall(name@, exprs_view(args@)),
{
    assert(((Expression::FunctionCall { name, args })@)->FunctionCall_1 =~= exprs_view(args@));
}

} // verus!
