//! The table-driven machine-code backend for 16-bit real mode.
//!
//! The output starts with a near jump (`E9` and a 16-bit displacement) to the
//! entry function. Functions follow in declaration order, each framed by a
//! prologue and an epilogue; their start offsets are recorded in a table, and
//! once all are placed the jump is patched to the entry function's offset.
//! Statements outside the supported set make compilation fail.
use vstd::prelude::*;

use crate::ast::{
    entry_name, lemma_block_view, lemma_call_view, stmts_view, ExprV, Expression, Function, FunctionV, ItemV,
    Program, Statement, StmtV, TopLevelItem,
};
use crate::text::{chars_of, same_text};

verus! {

#[derive(Debug, Clone, Copy, PartialEq, Eq, Structural)]
pub enum CodegenError {
    /// A statement that this backend has no lowering for.
    UnsupportedStatement,
    /// No function carries the entry name, so the entry jump has no target.
    MissingEntry,
}

/// A 16-bit value, little-endian.
pub open spec fn le16(v: int) -> Seq<u8> {
    seq![(v % 256) as u8, ((v / 256) % 256) as u8]
}

/// The 16-bit displacement of a jump that lands `d` bytes before the end of the jump.
pub open spec fn back16(d: int) -> int {
    (65536 - d % 65536) % 65536
}

/// BIOS video service: set 80x25 text mode, which clears the screen.
pub open spec fn clear_screen_bytes() -> Seq<u8> {
    seq![0xB8u8, 0x03, 0x00, 0xCD, 0x10]
}

/// BIOS teletype output of one character.
pub open spec fn put_char_bytes(c: u8) -> Seq<u8> {
    seq![0xB4u8, 0x0E, 0xB0, c, 0xCD, 0x10]
}

pub open spec fn newline_bytes() -> Seq<u8> {
    put_char_bytes(0x0D) + put_char_bytes(0x0A)
}

/// `push bp; mov bp, sp`
pub open spec fn frame_enter() -> Seq<u8> {
    seq![0x55u8, 0x89, 0xE5]
}

/// `mov sp, bp; pop bp; ret`
pub open spec fn frame_leave() -> Seq<u8> {
    seq![0x89u8, 0xEC, 0x5D, 0xC3]
}

/// Whether `w` occurs in `s`.
pub open spec fn contains_text(s: Seq<char>, w: Seq<char>) -> bool {
    exists|i: int| 0 <= i && i + w.len() <= s.len() && #[trigger] s.subrange(i, i + w.len()) == w
}

/// The bytes of one statement, or `None` where it has no lowering.
pub open spec fn tbl_stmt(s: StmtV) -> Option<Seq<u8>>
    decreases s,
{
    match s {
        StmtV::UnsafeBlock(b) => tbl_stmts(b),
        StmtV::LoopBlock(b) => match tbl_stmts(b) {
            Some(body) => Some(body + seq![0xE9u8] + le16(back16(body.len() + 3int))),
            None => None,
        },
        StmtV::ExpressionStmt(ExprV::Asm(code)) => if contains_text(code, "hlt"@) {
            Some(seq![0xF4u8])
        } else {
            None
        },
        StmtV::ExpressionStmt(ExprV::FunctionCall(name, args)) => if args.len() == 0 && name
            == "clear"@ {
            Some(clear_screen_bytes())
        } else if args.len() == 0 && name == "newline"@ {
            Some(newline_bytes())
        } else {
            None
        },
        _ => None,
    }
}

pub open spec fn tbl_stmts(ss: Seq<StmtV>) -> Option<Seq<u8>>
    decreases ss,
{
    if ss.len() == 0 {
        Some(Seq::empty())
    } else {
        match tbl_stmts(ss.subrange(0, ss.len() - 1)) {
            Some(a) => match tbl_stmt(ss[ss.len() - 1]) {
                Some(b) => Some(a + b),
                None => None,
            },
            None => None,
        }
    }
}

pub open spec fn tbl_function(f: FunctionV) -> Option<Seq<u8>> {
    match tbl_stmts(f.body) {
        Some(b) => Some(frame_enter() + b + frame_leave()),
        None => None,
    }
}

/// The code after the entry jump, and the table of function names with their offsets.
pub open spec fn tbl_layout(items: Seq<ItemV>) -> Option<(Seq<u8>, Seq<(Seq<char>, int)>)>
    decreases items.len(),
{
    if items.len() == 0 {
        Some((Seq::empty(), Seq::empty()))
    } else {
        match tbl_layout(items.drop_last()) {
            None => None,
            Some((code, table)) => match items.last() {
                ItemV::Global(_) => Some((code, table)),
                ItemV::Function(f) => match tbl_function(f) {
                    None => None,
                    Some(fc) => Some((code + fc, table.push((f.name, 3 + code.len() as int)))),
                },
            },
        }
    }
}

/// The offset recorded last for `name`.
pub open spec fn last_offset(table: Seq<(Seq<char>, int)>, name: Seq<char>) -> Option<int>
    decreases table.len(),
{
    if table.len() == 0 {
        None
    } else if table.last().0 == name {
        Some(table.last().1)
    } else {
        last_offset(table.drop_last(), name)
    }
}

/// The whole output for a program.
pub open spec fn tbl_program(items: Seq<ItemV>) -> Result<Seq<u8>, CodegenError> {
    match tbl_layout(items) {
        None => Err(CodegenError::UnsupportedStatement),
        Some((code, table)) => match last_offset(table, entry_name()) {
            None => Err(CodegenError::MissingEntry),
            Some(e) => Ok(seq![0xE9u8] + le16((e - 3) % 65536) + code),
        },
    }
}

pub open spec fn table_view(v: Seq<(String, usize)>) -> Seq<(Seq<char>, int)> {
    v.map_values(|p: (String, usize)| (p.0@, p.1 as int))
}

/// Whether `w` occurs in `s`.
fn text_contains(s: &str, w: &str) -> (r: bool)
    ensures
        r == contains_text(s@, w@),
{
    let sv = chars_of(s);
    let wv = chars_of(w);
    let n = sv.len();
    let m = wv.len();
    if m > n {
        return false;
    }
    let mut i: usize = 0;
    while i <= n - m
        invariant
            sv@ == s@,
            wv@ == w@,
            n == s@.len(),
            m == w@.len(),
            m <= n,
            forall|k: int| 0 <= k < i ==> #[trigger] s@.subrange(k, k + m) != w@,
        decreases n - m + 1 - i,
    {
        let mut j: usize = 0;
        while j < m && sv[i + j] == wv[j]
            invariant
                sv@ == s@,
                wv@ == w@,
                n == s@.len(),
                m == w@.len(),
                i + m <= n,
                j <= m,
                forall|k: int| 0 <= k < j ==> s@[i + k] == w@[k],
            decreases m - j,
        {
            j = j + 1;
        }
        if j == m {
            assert(s@.subrange(i as int, i + m) =~= w@);
            return true;
        }
        assert(s@.subrange(i as int, i + m)[j as int] != w@[j as int]);
        i = i + 1;
    }
    assert forall|k: int| 0 <= k && k + w@.len() <= s@.len() implies #[trigger] s@.subrange(
        k,
        k + w@.len(),
    ) != w@ by {
        assert(k < i);
    }
    false
}

pub struct Codegen {
    code: Vec<u8>,
    functions: Vec<(String, usize)>,
}

impl Codegen {
    pub fn new() -> Codegen {
        Codegen { code: Vec::new(), functions: Vec::new() }
    }

    /// The machine code of `program`, with the entry jump patched to the entry function.
    pub fn compile(&mut self, program: &Program) -> (r: Result<Vec<u8>, CodegenError>)
        ensures
            match r {
                Ok(b) => tbl_program(program@) == Ok::<Seq<u8>, CodegenError>(b@),
                Err(e) => tbl_program(program@) == Err::<Seq<u8>, CodegenError>(e),
            },
    {
        self.code = Vec::new();
        self.functions = Vec::new();
        // the entry jump, patched once every function has its offset
        self.emit_u8(0xE9);
        self.emit_u16(0);
        let mut i: usize = 0;
        while i < program.items.len()
            invariant
                i <= program.items@.len(),
                self.code@.len() >= 3,
                self.code@[0] == 0xE9,
                tbl_layout(program@.subrange(0, i as int)) == Some(
                    (self.code@.subrange(3, self.code@.len() as int), table_view(self.functions@)),
                ),
            decreases program.items@.len() - i,
        {
            let ghost sub = program@.subrange(0, i + 1);
            let ghost code0 = self.code@;
            let ghost table0 = table_view(self.functions@);
            proof {
                assert(sub.drop_last() =~= program@.subrange(0, i as int));
            }
            if let TopLevelItem::Function(func) = &program.items[i] {
                let offset = self.code.len();
                self.functions.push((func.name.clone(), offset));
                assert(table_view(self.functions@) =~= table0.push((func.name@, offset as int)));
                match self.generate_function(func) {
                    Ok(()) => {},
                    Err(e) => {
                        proof {
                            lemma_layout_none_extends(program@, i as int + 1);
                        }
                        return Err(e);
                    },
                }
                assert(self.code@.subrange(3, self.code@.len() as int) =~= code0.subrange(
                    3,
                    code0.len() as int,
                ) + tbl_function(func@)->Some_0);
            }
            i = i + 1;
        }
        assert(program@.subrange(0, program.items@.len() as int) =~= program@);
        match self.entry_offset() {
            None => Err(CodegenError::MissingEntry),
            Some(offset) => {
                proof {
                    lemma_offsets_after_jump(program@);
                    let (code, table) = tbl_layout(program@)->Some_0;
                    lemma_last_offset_bounds(table, entry_name(), 3, 3 + code.len() as int);
                }
                let rel = (offset - 3) % 65536;
                let ghost unpatched = self.code@;
                self.code.set(1, (rel % 256) as u8);
                self.code.set(2, (rel / 256) as u8);
                assert(self.code@.subrange(3, self.code@.len() as int) =~= unpatched.subrange(
                    3,
                    unpatched.len() as int,
                ));
                assert(self.code@ =~= seq![0xE9u8] + le16((offset - 3) as int % 65536) + self.code@.subrange(
                    3,
                    self.code@.len() as int,
                ));
                Ok(self.code.clone())
            },
        }
    }

    /// The offset recorded last under the entry name.
    fn entry_offset(&self) -> (r: Option<usize>)
        ensures
            match r {
                Some(k) => last_offset(table_view(self.functions@), entry_name()) == Some(k as int),
                None => last_offset(table_view(self.functions@), entry_name()) is None,
            },
    {
        let ghost all = table_view(self.functions@);
        let mut i: usize = self.functions.len();
        assert(all.subrange(0, i as int) =~= all);
        while i > 0
            invariant
                i <= self.functions@.len(),
                all == table_view(self.functions@),
                last_offset(all, entry_name()) == last_offset(all.subrange(0, i as int), entry_name()),
            decreases i,
        {
            let ghost sub = all.subrange(0, i as int);
            assert(sub.drop_last() =~= all.subrange(0, i - 1));
            if same_text(self.functions[i - 1].0.as_str(), "kernel_main") {
                return Some(self.functions[i - 1].1);
            }
            i = i - 1;
        }
        None
    }

    fn generate_function(&mut self, func: &Function) -> (r: Result<(), CodegenError>)
        ensures
            final(self).functions == old(self).functions,
            match r {
                Ok(()) => tbl_function(func@) is Some && final(self).code@ == old(self).code@
                    + tbl_function(func@)->Some_0,
                Err(e) => tbl_function(func@) is None && e == CodegenError::UnsupportedStatement,
            },
    {
        self.emit_u8(0x55);
        self.emit_u8(0x89);
        self.emit_u8(0xE5);
        match self.generate_block(&func.body) {
            Ok(()) => {},
            Err(e) => {
                return Err(e);
            },
        }
        self.emit_u8(0x89);
        self.emit_u8(0xEC);
        self.emit_u8(0x5D);
        self.emit_u8(0xC3);
        assert(self.code@ =~= old(self).code@ + tbl_function(func@)->Some_0);
        Ok(())
    }

    fn generate_block(&mut self, stmts: &Vec<Statement>) -> (r: Result<(), CodegenError>)
        ensures
            final(self).functions == old(self).functions,
            match r {
                Ok(()) => tbl_stmts(stmts_view(stmts@)) is Some && final(self).code@ == old(
                    self,
                ).code@ + tbl_stmts(stmts_view(stmts@))->Some_0,
                Err(e) => tbl_stmts(stmts_view(stmts@)) is None && e
                    == CodegenError::UnsupportedStatement,
            },
        decreases stmts, 0nat,
    {
        let ghost sv = stmts_view(stmts@);
        let ghost code0 = self.code@;
        let mut i: usize = 0;
        while i < stmts.len()
            invariant
                i <= stmts@.len(),
                sv == stmts_view(stmts@),
                self.functions == old(self).functions,
                code0 == old(self).code@,
                tbl_stmts(sv.subrange(0, i as int)) is Some,
                self.code@ == code0 + tbl_stmts(sv.subrange(0, i as int))->Some_0,
            decreases stmts@.len() - i,
        {
            let ghost sub = sv.subrange(0, i + 1);
            proof {
                assert(sub.subrange(0, sub.len() - 1) =~= sv.subrange(0, i as int));
                assert(sub[sub.len() - 1] == stmts@[i as int]@);
            }
            match self.generate_statement(&stmts[i]) {
                Ok(()) => {},
                Err(e) => {
                    proof {
                        lemma_stmts_none_extends(sv, i as int + 1);
                        assert(sv.subrange(0, sv.len() as int) =~= sv);
                    }
                    return Err(e);
                },
            }
            assert(self.code@ =~= code0 + tbl_stmts(sub)->Some_0);
            i = i + 1;
        }
        assert(sv.subrange(0, stmts@.len() as int) =~= sv);
        Ok(())
    }

    fn generate_statement(&mut self, stmt: &Statement) -> (r: Result<(), CodegenError>)
        ensures
            final(self).functions == old(self).functions,
            match r {
                Ok(()) => tbl_stmt(stmt@) is Some && final(self).code@ == old(self).code@ + tbl_stmt(
                    stmt@,
                )->Some_0,
                Err(e) => tbl_stmt(stmt@) is None && e == CodegenError::UnsupportedStatement,
            },
        decreases stmt,
    {
        match stmt {
            Statement::UnsafeBlock(stmts) => {
                proof {
                    lemma_block_view(*stmts);
                }
                self.generate_block(stmts)
            },
            Statement::LoopBlock(stmts) => {
                proof {
                    lemma_block_view(*stmts);
                }
                let start = self.code.len();
                match self.generate_block(stmts) {
                    Ok(()) => {},
                    Err(e) => {
                        return Err(e);
                    },
                }
                let body_len = self.code.len() - start;
                self.emit_u8(0xE9);
                let d: u128 = body_len as u128 + 3;
                let rel = ((65536 - d % 65536) % 65536) as u16;
                self.emit_u16(rel);
                assert(self.code@ =~= old(self).code@ + tbl_stmt(stmt@)->Some_0);
                Ok(())
            },
            Statement::ExpressionStmt(Expression::Asm(code)) => {
                if text_contains(code.as_str(), "hlt") {
                    self.emit_u8(0xF4);
                    assert(self.code@ =~= old(self).code@ + seq![0xF4u8]);
                    Ok(())
                } else {
                    Err(CodegenError::UnsupportedStatement)
                }
            },
            Statement::ExpressionStmt(Expression::FunctionCall { name, args }) => {
                proof {
                    lemma_call_view(*name, *args);
                }
                if args.len() == 0 && same_text(name.as_str(), "clear") {
                    // BIOS: set text mode 3, which clears the screen
                    self.emit_u8(0xB8);
                    self.emit_u16(0x0003);
                    self.emit_u8(0xCD);
                    self.emit_u8(0x10);
                    assert(self.code@ =~= old(self).code@ + clear_screen_bytes());
                    Ok(())
                } else if args.len() == 0 && same_text(name.as_str(), "newline") {
                    self.put_char(0x0D);
                    self.put_char(0x0A);
                    assert(self.code@ =~= old(self).code@ + newline_bytes());
                    Ok(())
                } else {
                    Err(CodegenError::UnsupportedStatement)
                }
            },
            _ => Err(CodegenError::UnsupportedStatement),
        }
    }

    /// Teletype output of one character through the BIOS.
    fn put_char(&mut self, c: u8)
        ensures
            final(self).functions == old(self).functions,
            final(self).code@ == old(self).code@ + put_char_bytes(c),
    {
        self.emit_u8(0xB4);
        self.emit_u8(0x0E);
        self.emit_u8(0xB0);
        self.emit_u8(c);
        self.emit_u8(0xCD);
        self.emit_u8(0x10);
        assert(self.code@ =~= old(self).code@ + put_char_bytes(c));
    }

    fn emit_u8(&mut self, b: u8)
        ensures
            final(self).functions == old(self).functions,
            final(self).code@ == old(self).code@.push(b),
    {
        self.code.push(b);
    }

    fn emit_u16(&mut self, w: u16)
        ensures
            final(self).functions == old(self).functions,
            final(self).code@ == old(self).code@ + le16(w as int),
    {
        self.emit_u8((w & 0xFF) as u8);
        self.emit_u8((w >> 8) as u8);
        assert((w & 0xFF) as int == w as int % 256) by (bit_vector);
        assert((w >> 8) as int == (w as int / 256) % 256) by (bit_vector);
        assert(self.code@ =~= old(self).code@ + le16(w as int));
    }
}

proof fn lemma_stmts_none_extends(ss: Seq<StmtV>, k: int)
    requires
        0 <= k <= ss.len(),
        tbl_stmts(ss.subrange(0, k)) is None,
    ensures
        tbl_stmts(ss) is None,
    decreases ss.len() - k,
{
    if k < ss.len() {
        let sub = ss.subrange(0, k + 1);
        assert(sub.subrange(0, sub.len() - 1) =~= ss.subrange(0, k));
        lemma_stmts_none_extends(ss, k + 1);
    } else {
        assert(ss.subrange(0, k) =~= ss);
    }
}

proof fn lemma_layout_none_extends(items: Seq<ItemV>, k: int)
    requires
        0 <= k <= items.len(),
        tbl_layout(items.subrange(0, k)) is None,
    ensures
        tbl_layout(items) is None,
    decreases items.len() - k,
{
    if k < items.len() {
        let sub = items.subrange(0, k + 1);
        assert(sub.drop_last() =~= items.subrange(0, k));
        lemma_layout_none_extends(items, k + 1);
    } else {
        assert(items.subrange(0, k) =~= items);
    }
}

proof fn lemma_last_offset_bounds(table: Seq<(Seq<char>, int)>, name: Seq<char>, lo: int, hi: int)
    requires
        forall|k: int| 0 <= k < table.len() ==> lo <= #[trigger] table[k].1 <= hi,
    ensures
        last_offset(table, name) matches Some(e) ==> lo <= e <= hi,
    decreases table.len(),
{
    if table.len() > 0 {
        assert(table.last() == table[table.len() - 1]);
        lemma_last_offset_bounds(table.drop_last(), name, lo, hi);
    }
}

/// Every recorded offset lies after the entry jump.
proof fn lemma_offsets_after_jump(items: Seq<ItemV>)
    ensures
        tbl_layout(items) matches Some((code, table)) ==> forall|k: int|
            0 <= k < table.len() ==> 3 <= #[trigger] table[k].1 <= 3 + code.len(),
    decreases items.len(),
{
    if items.len() > 0 {
        lemma_offsets_after_jump(items.drop_last());
    }
}

} // verus!
