//! Lowering of a program to assembly text.
//!
//! Locals live in the stack frame: the k-th `let` of a function (from 0) is
//! pushed at `[rbp-8(k+1)]`. Loops get labels `.L_loop_N`, numbered in order
//! over the whole program.
use vstd::prelude::*;

use crate::ast::{
    lemma_block_view, lemma_call_view, stmts_view, Attribute, ExprV, Expression,
    FunctionV, GlobalV, GlobalVariable, Function, ItemV, Program, Statement, StmtV, TopLevelItem,
};
use crate::text::{dec_str, format_u128, format_u64, same_text};

verus! {

pub open spec fn header() -> Seq<char> {
    "bits 64\nsection .text\nglobal kernel_main\n\n"@
}

pub open spec fn prologue() -> Seq<char> {
    "    push rbp\n    mov rbp, rsp\n"@
}

pub open spec fn epilogue() -> Seq<char> {
    "    mov rsp, rbp\n    pop rbp\n    ret\n\n"@
}

/// The frame slot of the local pushed `k`-th in its function.
pub open spec fn slot_text(k: nat) -> Seq<char> {
    "[rbp-"@ + dec_str(8 * (k + 1)) + "]"@
}

/// Index of the latest local named `name`.
pub open spec fn find_local(locals: Seq<Seq<char>>, name: Seq<char>) -> Option<nat>
    decreases locals.len(),
{
    if locals.len() == 0 {
        None
    } else if locals.last() == name {
        Some((locals.len() - 1) as nat)
    } else {
        find_local(locals.drop_last(), name)
    }
}

/// The loop label numbered `n`.
pub open spec fn loop_label(n: u64) -> Seq<char> {
    ".L_loop_"@ + dec_str(n as nat)
}

pub open spec fn next_label(n: u64) -> u64 {
    if n == u64::MAX {
        0
    } else {
        (n + 1) as u64
    }
}

/// Text that leaves the value of `e` in `rax`.
pub open spec fn asm_expr(locals: Seq<Seq<char>>, e: ExprV) -> Seq<char>
    decreases e,
{
    match e {
        ExprV::Integer(v) => "    mov rax, "@ + dec_str(v as nat) + "\n"@,
        ExprV::Identifier(n) => match find_local(locals, n) {
            Some(k) => "    mov rax, "@ + slot_text(k) + "\n"@,
            None => "    mov rax, "@ + n + "\n"@,
        },
        ExprV::Cast(_, inner) => asm_expr(locals, *inner),
        ExprV::Dereference(inner) => asm_expr(locals, *inner) + "    mov rax, [rax]\n"@,
        ExprV::BinaryOp(_, l, r) => asm_expr(locals, *l) + "    push rax\n"@ + asm_expr(locals, *r)
            + "    mov rbx, rax\n    pop rax\n    or rax, rbx\n"@,
        ExprV::FunctionCall(name, args) => if name == "inb"@ {
            if args.len() > 0 {
                asm_expr(locals, args[0]) + "    mov dx, ax\n    in al, dx\n    and rax, 0xFF\n"@
            } else {
                Seq::empty()
            }
        } else {
            "    call "@ + name + "\n"@
        },
        ExprV::Asm(code) => "    "@ + code + "\n"@,
    }
}

/// Per-function locals (names in push order) and the next loop label number.
pub type AsmState = (Seq<Seq<char>>, u64);

/// Text for statement `s`, and the state after it.
pub open spec fn asm_stmt(st: AsmState, s: StmtV) -> (Seq<char>, AsmState)
    decreases s,
{
    match s {
        StmtV::Let { name, value, .. } => (
            asm_expr(st.0, value) + "    push rax\n"@ + "    ; variable "@ + name + " at "@
                + slot_text(st.0.len()) + "\n"@,
            (st.0.push(name), st.1),
        ),
        StmtV::UnsafeBlock(b) => asm_stmts(st, b),
        StmtV::LoopBlock(b) => {
            let label = loop_label(st.1);
            let (body, st2) = asm_stmts((st.0, next_label(st.1)), b);
            (label + ":\n"@ + body + "    jmp "@ + label + "\n"@, st2)
        },
        StmtV::ExpressionStmt(e) => (asm_expr(st.0, e), st),
        StmtV::Assignment { target, value } => {
            let saved = asm_expr(st.0, value) + "    push rax\n"@;
            match target {
                ExprV::Dereference(inner) => (
                    saved + asm_expr(st.0, *inner) + "    pop rbx\n    mov [rax], bx\n"@,
                    st,
                ),
                _ => (saved + "    ; unsupported assignment target\n    add rsp, 8\n"@, st),
            }
        },
    }
}

/// Text for a statement sequence, in order, and the state after it.
pub open spec fn asm_stmts(st: AsmState, ss: Seq<StmtV>) -> (Seq<char>, AsmState)
    decreases ss,
{
    if ss.len() == 0 {
        (Seq::empty(), st)
    } else {
        let (a, st1) = asm_stmts(st, ss.subrange(0, ss.len() - 1));
        let (b, st2) = asm_stmt(st1, ss[ss.len() - 1]);
        (a + b, st2)
    }
}

/// The last `address` attribute, if any.
pub open spec fn last_address(attrs: Seq<Attribute>) -> Option<u64>
    decreases attrs.len(),
{
    if attrs.len() == 0 {
        None
    } else {
        match attrs.last() {
            Attribute::Address(a) => Some(a),
            _ => last_address(attrs.drop_last()),
        }
    }
}

pub open spec fn asm_global(g: GlobalV) -> Seq<char> {
    match last_address(g.attributes) {
        Some(a) => g.name + " equ "@ + dec_str(a as nat) + "\n"@,
        None => "; global "@ + g.name + " has no address; no storage is allocated\n"@,
    }
}

pub open spec fn asm_function(labels: u64, f: FunctionV) -> (Seq<char>, u64) {
    let (body, st) = asm_stmts((Seq::empty(), labels), f.body);
    (f.name + ":\n"@ + prologue() + body + epilogue(), st.1)
}

pub open spec fn asm_item(labels: u64, it: ItemV) -> (Seq<char>, u64) {
    match it {
        ItemV::Global(g) => (asm_global(g), labels),
        ItemV::Function(f) => asm_function(labels, f),
    }
}

pub open spec fn asm_items(labels: u64, items: Seq<ItemV>) -> (Seq<char>, u64)
    decreases items.len(),
{
    if items.len() == 0 {
        (Seq::empty(), labels)
    } else {
        let (a, l1) = asm_items(labels, items.drop_last());
        let (b, l2) = asm_item(l1, items.last());
        (a + b, l2)
    }
}

/// The whole assembly text of a program.
pub open spec fn asm_program(items: Seq<ItemV>) -> Seq<char> {
    header() + asm_items(0, items).0
}

pub open spec fn names_view(v: Seq<String>) -> Seq<Seq<char>> {
    v.map_values(|s: String| s@)
}

pub struct AsmGenerator {
    output: String,
    locals: Vec<String>,
    labels: u64,
}

impl AsmGenerator {
    pub closed spec fn state(&self) -> AsmState {
        (names_view(self.locals@), self.labels)
    }

    pub fn new() -> (r: AsmGenerator)
        ensures
            r.state() == (Seq::<Seq<char>>::empty(), 0u64),
    {
        let r = AsmGenerator { output: String::new(), locals: Vec::new(), labels: 0 };
        assert(names_view(r.locals@) =~= Seq::<Seq<char>>::empty());
        r
    }

    /// The assembly text of `program`.
    pub fn generate(&mut self, program: &Program) -> (r: String)
        ensures
            r@ == asm_program(program@),
    {
        self.output = String::new();
        self.labels = 0;
        self.output.append("bits 64\nsection .text\nglobal kernel_main\n\n");
        let mut i: usize = 0;
        while i < program.items.len()
            invariant
                i <= program.items@.len(),
                self.output@ == header() + asm_items(0, program@.subrange(0, i as int)).0,
                self.labels == asm_items(0, program@.subrange(0, i as int)).1,
            decreases program.items@.len() - i,
        {
            let ghost l0 = self.labels;
            match &program.items[i] {
                TopLevelItem::GlobalVariable(g) => self.generate_global(g),
                TopLevelItem::Function(f) => self.generate_function(f),
            }
            proof {
                let sub = program@.subrange(0, i + 1);
                assert(sub.drop_last() =~= program@.subrange(0, i as int));
                assert(sub.last() == program.items@[i as int]@);
                assert(header() + asm_items(0, program@.subrange(0, i as int)).0
                    + asm_item(l0, program.items@[i as int]@).0 =~= header() + asm_items(0, sub).0);
            }
            i = i + 1;
        }
        assert(program@.subrange(0, program.items@.len() as int) =~= program@);
        self.output.clone()
    }

    fn generate_global(&mut self, global: &GlobalVariable)
        ensures
            final(self).output@ == old(self).output@ + asm_global(global@),
            final(self).locals == old(self).locals,
            final(self).labels == old(self).labels,
    {
        let mut addr: Option<u64> = None;
        let mut i: usize = 0;
        while i < global.attributes.len()
            invariant
                i <= global.attributes@.len(),
                addr == last_address(global.attributes@.subrange(0, i as int)),
            decreases global.attributes@.len() - i,
        {
            proof {
                let sub = global.attributes@.subrange(0, i + 1);
                assert(sub.drop_last() =~= global.attributes@.subrange(0, i as int));
            }
            if let Attribute::Address(a) = global.attributes[i] {
                addr = Some(a);
            }
            i = i + 1;
        }
        assert(global.attributes@.subrange(0, global.attributes@.len() as int) =~= global.attributes@);
        match addr {
            Some(a) => {
                self.output.append(global.name.as_str());
                self.output.append(" equ ");
                let text = format_u64(a);
                self.output.append(text.as_str());
                self.output.append("\n");
            },
            None => {
                self.output.append("; global ");
                self.output.append(global.name.as_str());
                self.output.append(" has no address; no storage is allocated\n");
            },
        }
    }

    fn generate_function(&mut self, func: &Function)
        ensures
            final(self).output@ == old(self).output@ + asm_function(old(self).labels, func@).0,
            final(self).labels == asm_function(old(self).labels, func@).1,
    {
        self.output.append(func.name.as_str());
        self.output.append(":\n");
        self.locals = Vec::new();
        assert(names_view(self.locals@) =~= Seq::<Seq<char>>::empty());
        self.output.append("    push rbp\n    mov rbp, rsp\n");
        self.generate_block(&func.body);
        self.output.append("    mov rsp, rbp\n    pop rbp\n    ret\n\n");
    }

    /// Lowers statements in order.
    fn generate_block(&mut self, stmts: &Vec<Statement>)
        ensures
            final(self).output@ == old(self).output@ + asm_stmts(old(self).state(), stmts_view(stmts@)).0,
            final(self).state() == asm_stmts(old(self).state(), stmts_view(stmts@)).1,
        decreases stmts, 0nat,
    {
        let ghost st0 = self.state();
        let ghost out0 = self.output@;
        let ghost sv = stmts_view(stmts@);
        let mut i: usize = 0;
        while i < stmts.len()
            invariant
                i <= stmts@.len(),
                sv == stmts_view(stmts@),
                self.output@ == out0 + asm_stmts(st0, sv.subrange(0, i as int)).0,
                self.state() == asm_stmts(st0, sv.subrange(0, i as int)).1,
            decreases stmts@.len() - i,
        {
            let ghost s1 = self.state();
            self.generate_statement(&stmts[i]);
            proof {
                let sub = sv.subrange(0, i + 1);
                assert(sub.subrange(0, sub.len() - 1) =~= sv.subrange(0, i as int));
                assert(sub[sub.len() - 1] == stmts@[i as int]@);
                assert(out0 + asm_stmts(st0, sv.subrange(0, i as int)).0 + asm_stmt(s1, stmts@[i as int]@).0
                    =~= out0 + asm_stmts(st0, sub).0);
            }
            i = i + 1;
        }
        assert(sv.subrange(0, stmts@.len() as int) =~= sv);
    }

    /// Evaluates the initial value and pushes it as the next local of the frame.
    fn generate_let(&mut self, stmt: &Statement)
        requires
            stmt is Let,
        ensures
            final(self).output@ == old(self).output@ + asm_stmt(old(self).state(), stmt@).0,
            final(self).state() == asm_stmt(old(self).state(), stmt@).1,
    {
        if let Statement::Let { name, value, .. } = stmt {
            self.generate_expression(value);
            self.output.append("    push rax\n");
            let k = self.locals.len();
            let ghost names = names_view(self.locals@);
            self.locals.push(name.clone());
            assert(names_view(self.locals@) =~= names.push(name@));
            self.output.append("    ; variable ");
            self.output.append(name.as_str());
            self.output.append(" at ");
            self.output.append("[rbp-");
            let text = format_u128(8 * (k as u128 + 1));
            self.output.append(text.as_str());
            self.output.append("]");
            self.output.append("\n");
            assert(names.len() == k);
        }
    }

    fn generate_statement(&mut self, stmt: &Statement)
        ensures
            final(self).output@ == old(self).output@ + asm_stmt(old(self).state(), stmt@).0,
            final(self).state() == asm_stmt(old(self).state(), stmt@).1,
        decreases stmt,
    {
        match stmt {
            Statement::Let { .. } => {
                self.generate_let(stmt);
            },
            Statement::UnsafeBlock(stmts) => {
                proof {
                    lemma_block_view(*stmts);
                }
                self.generate_block(stmts);
            },
            Statement::LoopBlock(stmts) => {
                proof {
                    lemma_block_view(*stmts);
                }
                let label = format_u64(self.labels);
                self.labels = if self.labels == u64::MAX {
                    0
                } else {
                    self.labels + 1
                };
                self.output.append(".L_loop_");
                self.output.append(label.as_str());
                self.output.append(":\n");
                self.generate_block(stmts);
                self.output.append("    jmp ");
                self.output.append(".L_loop_");
                self.output.append(label.as_str());
                self.output.append("\n");
            },
            Statement::ExpressionStmt(e) => {
                self.generate_expression(e);
            },
            Statement::Assignment { target, value } => {
                self.generate_expression(value);
                self.output.append("    push rax\n");
                match target {
                    Expression::Dereference(inner) => {
                        self.generate_expression(inner);
                        self.output.append("    pop rbx\n    mov [rax], bx\n");
                    },
                    _ => {
                        self.output.append("    ; unsupported assignment target\n    add rsp, 8\n");
                    },
                }
            },
        }
    }

    /// Index of the latest local named `name`.
    fn lookup_local(&self, name: &String) -> (r: Option<usize>)
        ensures
            match r {
                Some(k) => find_local(names_view(self.locals@), name@) == Some(k as nat),
                None => find_local(names_view(self.locals@), name@) is None,
            },
    {
        let ghost all = names_view(self.locals@);
        let mut i: usize = self.locals.len();
        assert(all.subrange(0, i as int) =~= all);
        while i > 0
            invariant
                i <= self.locals@.len(),
                all == names_view(self.locals@),
                find_local(all, name@) == find_local(all.subrange(0, i as int), name@),
            decreases i,
        {
            let ghost sub = all.subrange(0, i as int);
            assert(sub.drop_last() =~= all.subrange(0, i - 1));
            if self.locals[i - 1] == *name {
                return Some(i - 1);
            }
            i = i - 1;
        }
        None
    }

    fn generate_expression(&mut self, expr: &Expression)
        ensures
            final(self).output@ == old(self).output@ + asm_expr(old(self).state().0, expr@),
            final(self).locals == old(self).locals,
            final(self).labels == old(self).labels,
        decreases expr,
    {
        match expr {
            Expression::Integer(v) => {
                self.output.append("    mov rax, ");
                let text = format_u64(*v);
                self.output.append(text.as_str());
                self.output.append("\n");
            },
            Expression::Identifier(name) => {
                self.output.append("    mov rax, ");
                match self.lookup_local(name) {
                    Some(k) => {
                        self.output.append("[rbp-");
                        let text = format_u128(8 * (k as u128 + 1));
                        self.output.append(text.as_str());
                        self.output.append("]");
                    },
                    None => {
                        self.output.append(name.as_str());
                    },
                }
                self.output.append("\n");
            },
            Expression::Cast { value, .. } => {
                self.generate_expression(value);
            },
            Expression::Dereference(inner) => {
                self.generate_expression(inner);
                self.output.append("    mov rax, [rax]\n");
            },
            Expression::BinaryOp { left, right, .. } => {
                self.generate_expression(left);
                self.output.append("    push rax\n");
                self.generate_expression(right);
                self.output.append("    mov rbx, rax\n    pop rax\n    or rax, rbx\n");
            },
            Expression::FunctionCall { name, args } => {
                proof {
                    lemma_call_view(*name, *args);
                }
                if same_text(name.as_str(), "inb") {
                    if args.len() > 0 {
                        self.generate_expression(&args[0]);
                        self.output.append("    mov dx, ax\n    in al, dx\n    and rax, 0xFF\n");
                    }
                } else {
                    self.output.append("    call ");
                    self.output.append(name.as_str());
                    self.output.append("\n");
                }
            },
            Expression::Asm(code) => {
                self.output.append("    ");
                self.output.append(code.as_str());
                self.output.append("\n");
            },
        }
    }
}

} // verus!
