//! The pattern-matched machine-code backend, a best-effort lowering for the
//! entry function alone.
//!
//! It recognises two statement shapes in the entry function's body: an
//! `unsafe` block, whose assignments each become a fixed store of a character
//! cell to text-mode video memory, and a `loop` block, whose `asm("hlt")`
//! statements each become a halt opcode, closed by a short jump back to the
//! start of the loop. Every other statement contributes no bytes.
use vstd::prelude::*;

use crate::ast::{entry_name, ExprV, ItemV, Program, Statement, StmtV, TopLevelItem, Expression, stmts_view};
use crate::text::same_text;

verus! {

/// `mov rax, 0xB8000` then `mov word [rax], 0x0F42`.
pub open spec fn video_store_bytes() -> Seq<u8> {
    seq![0x48u8, 0xC7, 0xC0, 0x00, 0x80, 0x0B, 0x00, 0x66, 0xC7, 0x00, 0x42, 0x0F]
}

pub open spec fn is_halt(s: StmtV) -> bool {
    s == StmtV::ExpressionStmt(ExprV::Asm("hlt"@))
}

/// The bytes of the statements of an `unsafe` block.
pub open spec fn pm_unsafe(ss: Seq<StmtV>) -> Seq<u8>
    decreases ss.len(),
{
    if ss.len() == 0 {
        Seq::empty()
    } else {
        pm_unsafe(ss.drop_last()) + if ss.last() is Assignment {
            video_store_bytes()
        } else {
            Seq::empty()
        }
    }
}

/// One halt opcode for each `asm("hlt")` statement.
pub open spec fn pm_halts(ss: Seq<StmtV>) -> Seq<u8>
    decreases ss.len(),
{
    if ss.len() == 0 {
        Seq::empty()
    } else {
        pm_halts(ss.drop_last()) + if is_halt(ss.last()) {
            seq![0xF4u8]
        } else {
            Seq::empty()
        }
    }
}

/// The displacement byte of a short jump back over `n` bytes and itself: `-(n + 2)`
/// in two's complement, truncated to 8 bits.
pub open spec fn short_back(n: nat) -> u8 {
    ((256 - (n + 2) % 256) % 256) as u8
}

pub open spec fn pm_stmt(s: StmtV) -> Seq<u8> {
    match s {
        StmtV::UnsafeBlock(b) => pm_unsafe(b),
        StmtV::LoopBlock(b) => {
            let h = pm_halts(b);
            h + seq![0xEBu8, short_back(h.len())]
        },
        _ => Seq::empty(),
    }
}

pub open spec fn pm_body(ss: Seq<StmtV>) -> Seq<u8>
    decreases ss.len(),
{
    if ss.len() == 0 {
        Seq::empty()
    } else {
        pm_body(ss.drop_last()) + pm_stmt(ss.last())
    }
}

/// The output for a whole program: the bodies of the functions named as the entry.
pub open spec fn pm_program(items: Seq<ItemV>) -> Seq<u8>
    decreases items.len(),
{
    if items.len() == 0 {
        Seq::empty()
    } else {
        pm_program(items.drop_last()) + match items.last() {
            ItemV::Function(f) => if f.name == entry_name() {
                pm_body(f.body)
            } else {
                Seq::empty()
            },
            _ => Seq::empty(),
        }
    }
}

pub struct BinGenerator {
    output: Vec<u8>,
}

impl BinGenerator {
    pub fn new() -> BinGenerator {
        BinGenerator { output: Vec::new() }
    }

    /// The machine code of the entry function's recognised statements.
    pub fn generate(&mut self, program: &Program) -> (r: Vec<u8>)
        ensures
            r@ == pm_program(program@),
    {
        self.output = Vec::new();
        let mut i: usize = 0;
        while i < program.items.len()
            invariant
                i <= program.items@.len(),
                self.output@ == pm_program(program@.subrange(0, i as int)),
            decreases program.items@.len() - i,
        {
            proof {
                let sub = program@.subrange(0, i + 1);
                assert(sub.drop_last() =~= program@.subrange(0, i as int));
            }
            let ghost before = self.output@;
            if let TopLevelItem::Function(func) = &program.items[i] {
                if same_text(func.name.as_str(), "kernel_main") {
                    self.generate_kernel_main_body(&func.body);
                }
            }
            assert(self.output@ =~= pm_program(program@.subrange(0, i + 1)));
            i = i + 1;
        }
        assert(program@.subrange(0, program.items@.len() as int) =~= program@);
        self.output.clone()
    }

    fn generate_kernel_main_body(&mut self, statements: &Vec<Statement>)
        ensures
            final(self).output@ == old(self).output@ + pm_body(stmts_view(statements@)),
    {
        let ghost sv = stmts_view(statements@);
        let ghost out0 = self.output@;
        let mut i: usize = 0;
        while i < statements.len()
            invariant
                i <= statements@.len(),
                sv == stmts_view(statements@),
                self.output@ == out0 + pm_body(sv.subrange(0, i as int)),
            decreases statements@.len() - i,
        {
            proof {
                let sub = sv.subrange(0, i + 1);
                assert(sub.drop_last() =~= sv.subrange(0, i as int));
            }
            let ghost before = self.output@;
            match &statements[i] {
                Statement::UnsafeBlock(stmts) => {
                    proof {
                        crate::ast::lemma_block_view(*stmts);
                    }
                    let ghost inner = stmts_view(stmts@);
                    let mut j: usize = 0;
                    while j < stmts.len()
                        invariant
                            j <= stmts@.len(),
                            inner == stmts_view(stmts@),
                            self.output@ == before + pm_unsafe(inner.subrange(0, j as int)),
                        decreases stmts@.len() - j,
                    {
                        proof {
                            let sub = inner.subrange(0, j + 1);
                            assert(sub.drop_last() =~= inner.subrange(0, j as int));
                        }
                        if let Statement::Assignment { .. } = &stmts[j] {
                            self.emit_bytes(&[0x48, 0xC7, 0xC0, 0x00, 0x80, 0x0B, 0x00]);
                            self.emit_bytes(&[0x66, 0xC7, 0x00, 0x42, 0x0F]);
                        }
                        assert(self.output@ =~= before + pm_unsafe(inner.subrange(0, j + 1)));
                        j = j + 1;
                    }
                    assert(inner.subrange(0, stmts@.len() as int) =~= inner);
                },
                Statement::LoopBlock(stmts) => {
                    proof {
                        crate::ast::lemma_block_view(*stmts);
                    }
                    let ghost inner = stmts_view(stmts@);
                    let start_offset = self.output.len();
                    let mut j: usize = 0;
                    while j < stmts.len()
                        invariant
                            j <= stmts@.len(),
                            inner == stmts_view(stmts@),
                            start_offset == before.len(),
                            self.output@ == before + pm_halts(inner.subrange(0, j as int)),
                        decreases stmts@.len() - j,
                    {
                        proof {
                            let sub = inner.subrange(0, j + 1);
                            assert(sub.drop_last() =~= inner.subrange(0, j as int));
                        }
                        if let Statement::ExpressionStmt(Expression::Asm(code)) = &stmts[j] {
                            if same_text(code.as_str(), "hlt") {
                                self.output.push(0xF4);
                            }
                        }
                        assert(self.output@ =~= before + pm_halts(inner.subrange(0, j + 1)));
                        j = j + 1;
                    }
                    assert(inner.subrange(0, stmts@.len() as int) =~= inner);
                    let loop_len = self.output.len() - start_offset;
                    let offset = (256 - ((loop_len % 256) as u16 + 2) % 256) % 256;
                    self.output.push(0xEB);
                    self.output.push(offset as u8);
                    assert(self.output@ =~= before + pm_stmt(sv[i as int]));
                },
                _ => {},
            }
            assert(self.output@ =~= out0 + pm_body(sv.subrange(0, i + 1)));
            i = i + 1;
        }
        assert(sv.subrange(0, statements@.len() as int) =~= sv);
    }

    fn emit_bytes(&mut self, bytes: &[u8])
        ensures
            final(self).output@ == old(self).output@ + bytes@,
    {
        let mut k: usize = 0;
        let ghost out0 = self.output@;
        while k < bytes.len()
            invariant
                k <= bytes@.len(),
                self.output@ == out0 + bytes@.subrange(0, k as int),
            decreases bytes@.len() - k,
        {
            self.output.push(bytes[k]);
            assert(self.output@ =~= out0 + bytes@.subrange(0, k + 1));
            k = k + 1;
        }
        assert(bytes@.subrange(0, bytes@.len() as int) =~= bytes@);
    }
}

} // verus!
