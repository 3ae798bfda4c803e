//! Laws of the encoding, stated over the spec functions the encoders are
//! proved against.

use vstd::prelude::*;

use crate::instructions::{
    reg_token_val, spec_encode, spec_flag_suffix, spec_parse_add, spec_parse_let, Grammar,
    Instruction,
};
use crate::parser::{spec_outcome, spec_parse, Outcome, SpecDiag};
use crate::text::dec_val;

verus! {

/// An operand encoder never sets the opcode bits [31:27]: the driver alone
/// places the opcode.
pub proof fn lemma_operand_bits_clear(g: Grammar, args: Seq<Seq<char>>)
    ensures
        spec_encode(g, args) matches Ok(bits) ==> bits < (1u32 << 27),
{
    if let Ok(bits) = spec_encode(g, args) {
        match g {
            Grammar::Nope => {
                assert(0u32 < (1u32 << 27)) by (bit_vector);
            },
            Grammar::Let => {
                let r = reg_token_val(args[0]) as u32;
                let v = dec_val(args[2]) as u32;
                assert(r < 16 && v <= 0xFFFF ==> ((r << 23) | (v << 7)) < (1u32 << 27))
                    by (bit_vector);
            },
            Grammar::Add => {
                let r1 = reg_token_val(args[0]) as u32;
                let r2 = reg_token_val(args[2]) as u32;
                let r3 = reg_token_val(args[4]) as u32;
                let (carry, update) = spec_flag_suffix(args.skip(5)).unwrap();
                let c: u32 = if carry { 1u32 << 14 } else { 0u32 };
                let u: u32 = if update { 1u32 << 13 } else { 0u32 };
                assert(r1 < 16 && r2 < 16 && r3 < 16 && (c == 1u32 << 14 || c == 0) && (u == 1u32
                    << 13 || u == 0) ==> (((r1 << 23) | (r2 << 19) | (r3 << 15)) | c | u) < (1u32
                    << 27)) by (bit_vector);
            },
            Grammar::Sub | Grammar::Mul | Grammar::Div => {
                let r1 = reg_token_val(args[0]) as u32;
                let r2 = reg_token_val(args[2]) as u32;
                let r3 = reg_token_val(args[4]) as u32;
                assert(r1 < 16 && r2 < 16 && r3 < 16 ==> (((r1 << 23) | (r2 << 19) | (r3 << 15)) | (
                1u32 << 14)) < (1u32 << 27) && (((r1 << 23) | (r2 << 19) | (r3 << 15)) | 0u32) < (
                1u32 << 27)) by (bit_vector);
            },
            Grammar::Log => {
                let r = reg_token_val(args[0]) as u32;
                assert(r < 16 ==> (r << 23) < (1u32 << 27)) by (bit_vector);
            },
        }
    }
}

/// LET round-trip: for every accepted `LET Rr BE v`, the register field
/// (bits [26:23]) and the immediate field (bits [22:7]) of the encoded word
/// give back exactly `r` and `v`.
pub proof fn lemma_let_round_trip(args: Seq<Seq<char>>, op: u32)
    requires
        spec_parse_let(args) is Ok,
        op < 32,
    ensures
        ({
            let w = (op << 27) | spec_parse_let(args)->Ok_0;
            ((w >> 23) & 0xF) == reg_token_val(args[0]) && ((w >> 7) & 0xFFFF) == dec_val(args[2])
        }),
{
    let r = reg_token_val(args[0]) as u32;
    let v = dec_val(args[2]) as u32;
    assert(spec_parse_let(args)->Ok_0 == (r << 23) | (v << 7));
    assert(r < 16 && v <= 0xFFFF && op < 32 ==> (((op << 27) | ((r << 23) | (v << 7))) >> 23) & 0xF
        == r && (((op << 27) | ((r << 23) | (v << 7))) >> 7) & 0xFFFF == v) by (bit_vector);
}

/// ADD flag order-independence: `WITH CARRY WITH UPDATE` and
/// `WITH UPDATE WITH CARRY` after the same operands encode the same word.
pub proof fn lemma_add_flag_order(base: Seq<Seq<char>>)
    requires
        base.len() == 5,
    ensures
        spec_parse_add(base + seq!["WITH"@, "CARRY"@, "WITH"@, "UPDATE"@]) == spec_parse_add(
            base + seq!["WITH"@, "UPDATE"@, "WITH"@, "CARRY"@],
        ),
{
    let a = base + seq!["WITH"@, "CARRY"@, "WITH"@, "UPDATE"@];
    let b = base + seq!["WITH"@, "UPDATE"@, "WITH"@, "CARRY"@];
    assert(a.len() == 9 && b.len() == 9);
    assert(forall|k: int| 0 <= k < 5 ==> a[k] == base[k] && b[k] == base[k]);
    assert(a.skip(5) =~= seq!["WITH"@, "CARRY"@, "WITH"@, "UPDATE"@]);
    assert(b.skip(5) =~= seq!["WITH"@, "UPDATE"@, "WITH"@, "CARRY"@]);
    assert(spec_flag_suffix(a.skip(5)) == Some((true, true)));
    assert(spec_flag_suffix(b.skip(5)) == Some((true, true)));
}

/// The update flag of SUB, MUL and DIV sits at bit 14, ADD's at bit 13:
/// composed with identical register fields, neither flag ever reaches the
/// other's bit, and the register fields reach neither.
pub proof fn lemma_update_flags_distinct(r1: u32, r2: u32, r3: u32)
    requires
        r1 < 16,
        r2 < 16,
        r3 < 16,
    ensures
        ({
            let regs = (r1 << 23) | (r2 << 19) | (r3 << 15);
            &&& regs & (1u32 << 13) == 0
            &&& regs & (1u32 << 14) == 0
            &&& (regs | (1u32 << 13)) & (1u32 << 14) == 0
            &&& (regs | (1u32 << 14)) & (1u32 << 13) == 0
            &&& (1u32 << 13) & (1u32 << 14) == 0
        }),
{
    assert(r1 < 16 && r2 < 16 && r3 < 16 ==> {
        let regs = (r1 << 23) | (r2 << 19) | (r3 << 15);
        &&& regs & (1u32 << 13) == 0
        &&& regs & (1u32 << 14) == 0
        &&& (regs | (1u32 << 13)) & (1u32 << 14) == 0
        &&& (regs | (1u32 << 14)) & (1u32 << 13) == 0
        &&& (1u32 << 13) & (1u32 << 14) == 0
    }) by (bit_vector);
}

/// A skipped line — blank, or opening with the comment marker — produces no
/// diagnostic and leaves the numbering of every later diagnostic unchanged:
/// the pass continues with the next line under the next 1-based number.
pub proof fn lemma_skip_line_transparent(reg: Seq<Instruction>, lines: Seq<Seq<char>>, base: nat)
    requires
        lines.len() > 0,
        spec_outcome(reg, lines[0]) is Skip,
    ensures
        spec_parse(reg, lines, base) == spec_parse(reg, lines.skip(1), base + 1),
{
}

/// Fail-fast: when line `i` is the first erroneous line of the pass, the
/// diagnostics are exactly those of the lines up to and including it — no
/// line after it contributes anything — and the last diagnostic is that
/// error, carrying the offending line's own 1-based number.
pub proof fn lemma_fail_fast(reg: Seq<Instruction>, lines: Seq<Seq<char>>, base: nat, i: int)
    requires
        0 <= i < lines.len(),
        spec_outcome(reg, lines[i]) is Halt,
        forall|j: int| 0 <= j < i ==> !(spec_outcome(reg, lines[j]) is Halt),
    ensures
        spec_parse(reg, lines, base) == spec_parse(reg, lines.take(i + 1), base),
        spec_parse(reg, lines, base).len() > 0,
        spec_parse(reg, lines, base).last() == (SpecDiag::Error {
            line: (base + i) as nat,
            kind: spec_outcome(reg, lines[i])->Halt_0,
        }),
    decreases i,
{
    let cut = lines.take(i + 1);
    assert(cut[0] == lines[0]);
    if i == 0 {
        assert(spec_parse(reg, lines, base) == seq![
            SpecDiag::Error { line: base, kind: spec_outcome(reg, lines[0])->Halt_0 },
        ]);
        assert(spec_parse(reg, cut, base) == seq![
            SpecDiag::Error { line: base, kind: spec_outcome(reg, cut[0])->Halt_0 },
        ]);
    } else {
        let tail = lines.skip(1);
        assert(forall|j: int| 0 <= j < i - 1 ==> tail[j] == lines[j + 1]);
        assert(tail[i - 1] == lines[i]);
        lemma_fail_fast(reg, tail, base + 1, i - 1);
        assert(cut.skip(1) =~= tail.take(i));
        assert(!(spec_outcome(reg, lines[0]) is Halt));
        match spec_outcome(reg, lines[0]) {
            Outcome::Skip => {
                assert(spec_parse(reg, lines, base) == spec_parse(reg, tail, base + 1));
                assert(spec_parse(reg, cut, base) == spec_parse(reg, tail.take(i), base + 1));
            },
            Outcome::Label(name) => {
                let d = SpecDiag::Label { line: base, name };
                assert(spec_parse(reg, lines, base) == seq![d] + spec_parse(reg, tail, base + 1));
                assert(spec_parse(reg, cut, base) == seq![d] + spec_parse(
                    reg,
                    tail.take(i),
                    base + 1,
                ));
                assert((seq![d] + spec_parse(reg, tail, base + 1)).last() == spec_parse(
                    reg,
                    tail,
                    base + 1,
                ).last());
            },
            Outcome::Word(op_code, word, tokens) => {
                let d = SpecDiag::Word { line: base, op_code, word, tokens };
                assert(spec_parse(reg, lines, base) == seq![d] + spec_parse(reg, tail, base + 1));
                assert(spec_parse(reg, cut, base) == seq![d] + spec_parse(
                    reg,
                    tail.take(i),
                    base + 1,
                ));
                assert((seq![d] + spec_parse(reg, tail, base + 1)).last() == spec_parse(
                    reg,
                    tail,
                    base + 1,
                ).last());
            },
            Outcome::Halt(_) => {
                assert(false);
            },
        }
    }
}

} // verus!
