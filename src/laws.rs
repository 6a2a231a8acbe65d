//! Properties that relate several parts of the compiler.
use vstd::prelude::*;

use crate::ast::{entry_name, FunctionV, ItemV, StmtV};
use crate::codegen::{
    back16, frame_enter, last_offset, le16, tbl_function, tbl_layout, tbl_program, tbl_stmt,
    tbl_stmts,
};
use crate::codegen_asm::{asm_items, asm_program, epilogue, header, prologue};
use crate::codegen_bin::{pm_halts, pm_stmt};
use crate::lexer::{in_class, lex, run, starts_hex, CharClass, TokenV};
use crate::parser::parse_source;
use crate::text::{dec_str, dec_value, hex_value, is_dec_digit, is_hex_digit, lemma_dec_str_value};

verus! {

proof fn lemma_run_all(s: Seq<char>, i: int, cls: CharClass)
    requires
        0 <= i <= s.len(),
        forall|k: int| i <= k < s.len() ==> in_class(cls, #[trigger] s[k]),
    ensures
        run(s, i, cls) == s.len() - i,
    decreases s.len() - i,
{
    if i < s.len() {
        lemma_run_all(s, i + 1, cls);
    }
}

/// A run of decimal digits whose value fits in 64 bits lexes to one integer
/// token with that value, covering the whole text; rendering the value in
/// decimal reads back as the same value.
pub proof fn lemma_decimal_literal_round_trip(d: Seq<char>)
    requires
        d.len() > 0,
        forall|k: int| 0 <= k < d.len() ==> is_dec_digit(#[trigger] d[k]),
        dec_value(d) <= u64::MAX,
    ensures
        lex(d, 0) == (Ok::<TokenV, crate::lexer::LexError>(TokenV::Integer(dec_value(d) as u64)), d.len() as int),
        dec_value(dec_str(dec_value(d))) == dec_value(d),
{
    assert(run(d, 0, CharClass::Space) == 0);
    lemma_run_all(d, 0, CharClass::Decimal);
    assert(!starts_hex(d, 0)) by {
        if d.len() > 1 {
            assert(is_dec_digit(d[1]));
        }
    }
    assert(d.subrange(0, d.len() as int) =~= d);
    lemma_dec_str_value(dec_value(d));
}

/// `0x` or `0X` followed by hexadecimal digits whose value fits in 64 bits
/// lexes to one integer token with that value, covering the whole text;
/// rendering the value in decimal reads back as the same value.
pub proof fn lemma_hex_literal_round_trip(x: char, h: Seq<char>)
    requires
        x == 'x' || x == 'X',
        h.len() > 0,
        forall|k: int| 0 <= k < h.len() ==> is_hex_digit(#[trigger] h[k]),
        hex_value(h) <= u64::MAX,
    ensures
        lex(seq!['0', x] + h, 0) == (
            Ok::<TokenV, crate::lexer::LexError>(TokenV::Integer(hex_value(h) as u64)),
            h.len() + 2int,
        ),
        dec_value(dec_str(hex_value(h))) == hex_value(h),
{
    let s = seq!['0', x] + h;
    assert(run(s, 0, CharClass::Space) == 0);
    assert(starts_hex(s, 0));
    assert forall|k: int| 2 <= k < s.len() implies in_class(CharClass::Hex, #[trigger] s[k]) by {
        assert(s[k] == h[k - 2]);
    }
    lemma_run_all(s, 2, CharClass::Hex);
    assert(s.subrange(2, s.len() as int) =~= h);
    lemma_dec_str_value(hex_value(h));
}

/// Every 64-bit value, rendered in decimal, lexes back to itself.
pub proof fn lemma_format_then_lex(v: u64)
    ensures
        lex(dec_str(v as nat), 0) == (
            Ok::<TokenV, crate::lexer::LexError>(TokenV::Integer(v)),
            dec_str(v as nat).len() as int,
        ),
{
    lemma_dec_str_value(v as nat);
    lemma_decimal_literal_round_trip(dec_str(v as nat));
}

/// Parsing is a function of the source text: the same text gives the same
/// program tree, or the same error.
pub proof fn lemma_parse_deterministic(s1: Seq<char>, s2: Seq<char>)
    requires
        s1 == s2,
    ensures
        parse_source(s1) == parse_source(s2),
        parse_source(s1) matches Ok(a) ==> (parse_source(s2) matches Ok(b) && a == b),
{
}

/// A program of one function with an empty body lowers to the header, the
/// function's label, and its prologue followed directly by its epilogue.
pub proof fn lemma_empty_function_assembly(f: FunctionV)
    requires
        f.body.len() == 0,
    ensures
        asm_program(seq![ItemV::Function(f)]) == header() + f.name + ":\n"@ + prologue()
            + epilogue(),
{
    let items = seq![ItemV::Function(f)];
    assert(items.drop_last() =~= Seq::<ItemV>::empty());
    assert(items.last() == ItemV::Function(f));
    assert(crate::codegen_asm::asm_stmts((Seq::empty(), 0u64), f.body).0 == Seq::<char>::empty());
    assert(asm_items(0, items.drop_last()) == (Seq::<char>::empty(), 0u64));
    assert(crate::codegen_asm::asm_function(0, f).0 =~= f.name + ":\n"@ + prologue() + epilogue());
    assert(asm_items(0, items).0 =~= f.name + ":\n"@ + prologue() + epilogue());
}

/// The two's-complement value of a byte.
pub open spec fn signed8(b: u8) -> int {
    if b < 128 {
        b as int
    } else {
        b as int - 256
    }
}

/// In the pattern-matched backend a loop lowers to its halt opcodes and a
/// short jump whose displacement, counted from the end of the jump, lands on
/// the loop's first byte (as long as the loop is within a short jump's reach).
pub proof fn lemma_loop_jump_lands_on_start(b: Seq<StmtV>)
    requires
        pm_halts(b).len() + 2 <= 128,
    ensures
        ({
            let n = pm_halts(b).len();
            let out = pm_stmt(StmtV::LoopBlock(b));
            &&& out.len() == n + 2
            &&& forall|k: int| 0 <= k < n ==> #[trigger] out[k] == 0xF4u8
            &&& out[n as int] == 0xEBu8
            &&& (n + 2) + signed8(out[n as int + 1]) == 0
        }),
{
    lemma_halts_are_halts(b);
}

proof fn lemma_halts_are_halts(b: Seq<StmtV>)
    ensures
        forall|k: int| 0 <= k < pm_halts(b).len() ==> #[trigger] pm_halts(b)[k] == 0xF4u8,
    decreases b.len(),
{
    if b.len() > 0 {
        lemma_halts_are_halts(b.drop_last());
        let pre = pm_halts(b.drop_last());
        assert forall|k: int| 0 <= k < pm_halts(b).len() implies #[trigger] pm_halts(b)[k] == 0xF4u8 by {
            if k < pre.len() {
                assert(pm_halts(b)[k] == pre[k]);
            }
        }
    }
}

/// Offsets recorded for functions point just past the entry jump at the
/// function's frame setup, and stay inside the code.
proof fn lemma_layout_offsets(items: Seq<ItemV>)
    ensures
        tbl_layout(items) matches Some((code, table)) ==> forall|k: int|
            0 <= k < table.len() ==> 3 <= #[trigger] table[k].1 && table[k].1 <= code.len()
                && code.subrange(table[k].1 - 3, table[k].1) == frame_enter(),
    decreases items.len(),
{
    if items.len() > 0 {
        lemma_layout_offsets(items.drop_last());
        if let Some((code0, table0)) = tbl_layout(items.drop_last()) {
            if let ItemV::Function(f) = items.last() {
                if let Some(fc) = tbl_function(f) {
                    let code = code0 + fc;
                    let table = table0.push((f.name, 3 + code0.len() as int));
                    assert forall|k: int| 0 <= k < table.len() implies 3 <= #[trigger] table[k].1
                        && table[k].1 <= code.len() && code.subrange(table[k].1 - 3, table[k].1)
                        == frame_enter() by {
                        if k < table0.len() {
                            assert(table[k] == table0[k]);
                            assert(code.subrange(table[k].1 - 3, table[k].1) =~= code0.subrange(
                                table[k].1 - 3,
                                table[k].1,
                            ));
                        } else {
                            assert(code.subrange(table[k].1 - 3, table[k].1) =~= frame_enter());
                        }
                    }
                }
            }
        }
    }
}

proof fn lemma_last_offset_recorded(table: Seq<(Seq<char>, int)>, name: Seq<char>)
    ensures
        last_offset(table, name) matches Some(e) ==> exists|k: int|
            0 <= k < table.len() && #[trigger] table[k].1 == e,
    decreases table.len(),
{
    if table.len() > 0 {
        lemma_last_offset_recorded(table.drop_last(), name);
        if table.last().0 != name {
            if let Some(e) = last_offset(table, name) {
                let k = choose|k: int| 0 <= k < table.len() - 1 && #[trigger] table.drop_last()[k].1 == e;
                assert(table[k] == table.drop_last()[k]);
            }
        } else {
            assert(table[table.len() - 1] == table.last());
        }
    }
}

/// In the table-driven backend a loop lowers to its body and a near jump whose
/// displacement, counted from the end of the jump, lands on the loop's first
/// byte (modulo 2^16, the size of a real-mode segment).
pub proof fn lemma_near_loop_jump(b: Seq<StmtV>)
    requires
        tbl_stmts(b) is Some,
    ensures
        ({
            let body = tbl_stmts(b)->Some_0;
            let out = tbl_stmt(StmtV::LoopBlock(b))->Some_0;
            let n = body.len() as int;
            &&& out.len() == n + 3
            &&& out.subrange(0, n) == body
            &&& out[n] == 0xE9u8
            &&& (n + 3 + out[n + 1] as int + 256 * out[n + 2] as int) % 65536 == 0
        }),
{
    let body = tbl_stmts(b)->Some_0;
    let n = body.len() as int;
    let out = tbl_stmt(StmtV::LoopBlock(b))->Some_0;
    assert(out.subrange(0, n) =~= body);
    let v = back16(n + 3);
    assert((v % 256) + 256 * ((v / 256) % 256) == v) by (nonlinear_arith)
        requires
            0 <= v < 65536,
    ;
    assert((n + 3 + v) % 65536 == 0) by (nonlinear_arith)
        requires
            n >= 0,
            v == (65536 - (n + 3) % 65536) % 65536,
    ;
}

/// The offset at which the table-driven backend places the entry function.
pub open spec fn entry_offset(items: Seq<ItemV>) -> Option<int> {
    match tbl_layout(items) {
        Some((_, table)) => last_offset(table, entry_name()),
        None => None,
    }
}

/// In the table-driven backend the output starts with a near jump whose
/// little-endian displacement is `entry - 3` (modulo 2^16), where `entry` is
/// the offset of the entry function, and the code at that offset is the entry
/// function's frame setup.
pub proof fn lemma_entry_jump(items: Seq<ItemV>)
    requires
        tbl_program(items) is Ok,
    ensures
        entry_offset(items) matches Some(e) && ({
            let b = tbl_program(items)->Ok_0;
            &&& b.len() >= e + 3
            &&& b[0] == 0xE9u8
            &&& b[1] as int + 256 * b[2] as int == (e - 3) % 65536
            &&& b.subrange(e, e + 3) == frame_enter()
        }),
{
    let (code, table) = tbl_layout(items)->Some_0;
    let e = entry_offset(items)->Some_0;
    lemma_layout_offsets(items);
    lemma_last_offset_recorded(table, entry_name());
    let k = choose|k: int| 0 <= k < table.len() && #[trigger] table[k].1 == e;
    let v = (e - 3) % 65536;
    let b = tbl_program(items)->Ok_0;
    assert(b == seq![0xE9u8] + le16(v) + code);
    assert(b.subrange(e, e + 3) =~= code.subrange(e - 3, e));
    assert((v % 256) + 256 * ((v / 256) % 256) == v) by (nonlinear_arith)
        requires
            0 <= v < 65536,
    ;
}

} // verus!
