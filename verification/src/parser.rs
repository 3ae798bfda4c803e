//! The assembler driver: scans source lines, classifies each as blank or
//! comment, label, or instruction, and sequences per-line diagnostics.
//! The pass is fail-fast: the first error ends it, and no later line is
//! evaluated.

use vstd::prelude::*;

use crate::instructions::{
    spec_encode, spec_lookup, ErrorKind, Instruction, InstructionList,
};
use crate::text::{
    lemma_tokens_nonempty, spec_lines, spec_tokens, split_lines, tokenize,
};

verus! {

/// The mathematical shape of one per-line diagnostic.
pub enum SpecDiag {
    Label { line: nat, name: Seq<char> },
    Word { line: nat, op_code: u8, word: u32, tokens: Seq<Seq<char>> },
    Error { line: nat, kind: ErrorKind },
}

/// What one line yields: nothing, a label, an encoded word with its operand
/// tokens, or an error that halts the pass.
pub enum Outcome {
    Skip,
    Label(Seq<char>),
    Word(u8, u32, Seq<Seq<char>>),
    Halt(ErrorKind),
}

/// Classifies one line against a registry and encodes it.
///
/// A line with no tokens, or whose first token opens with the comment
/// marker, is skipped. A line without a leading tab is a label and must hold
/// exactly one token. A line with a leading tab is an instruction: its first
/// token is the mnemonic, the rest are operand tokens.
pub open spec fn spec_outcome(reg: Seq<Instruction>, line: Seq<char>) -> Outcome {
    let toks = spec_tokens(line);
    if toks.len() == 0 {
        Outcome::Skip
    } else if toks[0][0] == '#' {
        Outcome::Skip
    } else if line[0] != '\t' {
        if toks.len() > 1 {
            Outcome::Halt(ErrorKind::LabelArgumentError)
        } else {
            Outcome::Label(toks[0])
        }
    } else {
        match spec_lookup(reg, toks[0]) {
            None => Outcome::Halt(ErrorKind::UnknownInstruction),
            Some(instr) => match spec_encode(instr.grammar, toks.skip(1)) {
                Err(e) => Outcome::Halt(e),
                Ok(bits) => Outcome::Word(
                    instr.op_code,
                    ((instr.op_code as u32) << 27) | bits,
                    toks.skip(1),
                ),
            },
        }
    }
}

/// The diagnostics of a pass over `lines`, the first of which carries the
/// 1-based number `base`. An erroneous line contributes the last diagnostic:
/// nothing after it is evaluated.
pub open spec fn spec_parse(reg: Seq<Instruction>, lines: Seq<Seq<char>>, base: nat) -> Seq<
    SpecDiag,
>
    decreases lines.len(),
{
    if lines.len() == 0 {
        Seq::empty()
    } else {
        match spec_outcome(reg, lines[0]) {
            Outcome::Skip => spec_parse(reg, lines.skip(1), base + 1),
            Outcome::Label(name) => seq![SpecDiag::Label { line: base, name }] + spec_parse(
                reg,
                lines.skip(1),
                base + 1,
            ),
            Outcome::Word(op_code, word, tokens) => seq![
                SpecDiag::Word { line: base, op_code, word, tokens },
            ] + spec_parse(reg, lines.skip(1), base + 1),
            Outcome::Halt(kind) => seq![SpecDiag::Error { line: base, kind }],
        }
    }
}

/// One per-line diagnostic: a recognized label, an encoded word with its
/// operand tokens, or a classified error. Lines are numbered from 1.
#[derive(Debug, Clone, PartialEq, Eq)]
pub enum Diagnostic {
    LabelFound { line: usize, name: String },
    EncodedWord { line: usize, op_code: u8, word: u32, tokens: Vec<String> },
    Error { line: usize, kind: ErrorKind },
}

impl Diagnostic {
    /// The mathematical shape of this diagnostic.
    pub open spec fn sd(self) -> SpecDiag {
        match self {
            Diagnostic::LabelFound { line, name } => SpecDiag::Label {
                line: line as nat,
                name: name@,
            },
            Diagnostic::EncodedWord { line, op_code, word, tokens } => SpecDiag::Word {
                line: line as nat,
                op_code,
                word,
                tokens: tokens.deep_view(),
            },
            Diagnostic::Error { line, kind } => SpecDiag::Error { line: line as nat, kind },
        }
    }
}

/// The shapes of a sequence of diagnostics.
pub open spec fn diag_views(s: Seq<Diagnostic>) -> Seq<SpecDiag> {
    s.map_values(|d: Diagnostic| d.sd())
}

/// Scans the whole source text, line by line, against the given registry,
/// and returns the ordered diagnostics of the pass.
#[verifier::loop_isolation(false)]
pub fn parse(schema: &InstructionList, file_content: &str) -> (r: Vec<Diagnostic>)
    ensures
        diag_views(r@) == spec_parse(schema.instructions@, spec_lines(file_content@), 1),
{
    let ghost reg = schema.instructions@;
    let ghost alllines = spec_lines(file_content@);
    let lines = split_lines(file_content);
    let mut out: Vec<Diagnostic> = Vec::new();
    let mut idx: usize = 0;
    proof {
        assert(alllines.skip(0) =~= alllines);
        assert(diag_views(out@) =~= Seq::<SpecDiag>::empty());
        assert(diag_views(out@) + spec_parse(reg, alllines, 1) =~= spec_parse(reg, alllines, 1));
    }
    while idx < lines.len()
        invariant
            0 <= idx <= lines@.len(),
            diag_views(out@) + spec_parse(reg, alllines.skip(idx as int), (idx as nat) + 1)
                == spec_parse(reg, alllines, 1),
        decreases lines@.len() - idx,
    {
        let line: &String = &lines[idx];
        let ghost lseq = alllines[idx as int];
        let ghost rest = alllines.skip(idx as int);
        proof {
            assert(lines.deep_view()[idx as int] == line@);
            assert(line@ == lseq);
            assert(rest.len() > 0);
            assert(rest[0] == lseq);
            assert(rest.skip(1) =~= alllines.skip(idx as int + 1));
            lemma_tokens_nonempty(lseq, 0);
        }
        let line_no = idx + 1;
        let toks = tokenize(line.as_str());
        let ghost stoks = spec_tokens(lseq);
        let ghost o = spec_outcome(reg, lseq);
        if toks.len() == 0 {
            proof {
                assert(o is Skip);
            }
        } else {
            proof {
                assert(stoks[0].len() >= 1);
                assert(toks@[0]@ == stoks[0]);
                if lseq.len() == 0 {
                    assert(spec_tokens(lseq) =~= Seq::<Seq<char>>::empty());
                }
                assert(lseq.len() > 0);
            }
            let t0 = toks[0].as_str();
            if t0.get_char(0) == '#' {
                proof {
                    assert(o is Skip);
                }
            } else if line.as_str().get_char(0) != '\t' {
                if toks.len() > 1 {
                    let d = Diagnostic::Error { line: line_no, kind: ErrorKind::LabelArgumentError };
                    let ghost prev = out@;
                    out.push(d);
                    proof {
                        assert(o == Outcome::Halt(ErrorKind::LabelArgumentError));
                        assert(spec_parse(reg, rest, (idx as nat) + 1) == seq![d.sd()]);
                        assert(diag_views(out@) =~= diag_views(prev) + seq![d.sd()]);
                        assert(diag_views(out@) =~= spec_parse(reg, alllines, 1));
                    }
                    return out;
                } else {
                    let name = t0.to_owned();
                    let d = Diagnostic::LabelFound { line: line_no, name };
                    let ghost prev = out@;
                    out.push(d);
                    proof {
                        assert(o == Outcome::Label(stoks[0]));
                        assert(spec_parse(reg, rest, (idx as nat) + 1) == seq![d.sd()]
                            + spec_parse(reg, alllines.skip(idx as int + 1), (idx as nat) + 2));
                        assert(diag_views(out@) =~= diag_views(prev) + seq![d.sd()]);
                        assert((diag_views(prev) + (seq![d.sd()] + spec_parse(
                            reg,
                            alllines.skip(idx as int + 1),
                            (idx as nat) + 2,
                        ))) =~= ((diag_views(prev) + seq![d.sd()]) + spec_parse(
                            reg,
                            alllines.skip(idx as int + 1),
                            (idx as nat) + 2,
                        )));
                    }
                }
            } else {
                match schema.get_instruction_by_name(t0) {
                    None => {
                        let d = Diagnostic::Error {
                            line: line_no,
                            kind: ErrorKind::UnknownInstruction,
                        };
                        let ghost prev = out@;
                        out.push(d);
                        proof {
                            assert(o == Outcome::Halt(ErrorKind::UnknownInstruction));
                            assert(spec_parse(reg, rest, (idx as nat) + 1) == seq![d.sd()]);
                            assert(diag_views(out@) =~= diag_views(prev) + seq![d.sd()]);
                            assert(diag_views(out@) =~= spec_parse(reg, alllines, 1));
                        }
                        return out;
                    },
                    Some(instr) => {
                        let mut ops: Vec<&str> = Vec::new();
                        let mut k: usize = 1;
                        while k < toks.len()
                            invariant
                                1 <= k <= toks@.len(),
                                ops@.len() == k - 1,
                                forall|t: int|
                                    0 <= t < ops@.len() ==> ops@[t]@ == toks.deep_view()[t + 1],
                            decreases toks@.len() - k,
                        {
                            ops.push(toks[k].as_str());
                            k += 1;
                        }
                        proof {
                            assert(ops.deep_view() =~= stoks.skip(1));
                        }
                        let res = instr.parse_args(ops);
                        match res {
                            Ok(word) => {
                                let mut owned: Vec<String> = Vec::new();
                                let mut k2: usize = 1;
                                while k2 < toks.len()
                                    invariant
                                        1 <= k2 <= toks@.len(),
                                        owned@.len() == k2 - 1,
                                        forall|t: int|
                                            0 <= t < owned@.len() ==> owned@[t]@
                                                == toks.deep_view()[t + 1],
                                    decreases toks@.len() - k2,
                                {
                                    owned.push(toks[k2].clone());
                                    k2 += 1;
                                }
                                proof {
                                    assert(owned.deep_view() =~= stoks.skip(1));
                                }
                                let d = Diagnostic::EncodedWord {
                                    line: line_no,
                                    op_code: instr.get_op_code(),
                                    word,
                                    tokens: owned,
                                };
                                let ghost prev = out@;
                                out.push(d);
                                proof {
                                    assert(o == Outcome::Word(
                                        instr.op_code,
                                        word,
                                        stoks.skip(1),
                                    ));
                                    assert(spec_parse(reg, rest, (idx as nat) + 1) == seq![d.sd()]
                                        + spec_parse(
                                        reg,
                                        alllines.skip(idx as int + 1),
                                        (idx as nat) + 2,
                                    ));
                                    assert(diag_views(out@) =~= diag_views(prev) + seq![d.sd()]);
                                    assert((diag_views(prev) + (seq![d.sd()] + spec_parse(
                                        reg,
                                        alllines.skip(idx as int + 1),
                                        (idx as nat) + 2,
                                    ))) =~= ((diag_views(prev) + seq![d.sd()]) + spec_parse(
                                        reg,
                                        alllines.skip(idx as int + 1),
                                        (idx as nat) + 2,
                                    )));
                                }
                            },
                            Err(e) => {
                                let d = Diagnostic::Error { line: line_no, kind: e };
                                let ghost prev = out@;
                                out.push(d);
                                proof {
                                    assert(o == Outcome::Halt(e));
                                    assert(spec_parse(reg, rest, (idx as nat) + 1) == seq![
                                        d.sd(),
                                    ]);
                                    assert(diag_views(out@) =~= diag_views(prev) + seq![d.sd()]);
                                    assert(diag_views(out@) =~= spec_parse(reg, alllines, 1));
                                }
                                return out;
                            },
                        }
                    },
                }
            }
        }
        idx += 1;
    }
    proof {
        assert(alllines.skip(idx as int) =~= Seq::<Seq<char>>::empty());
        assert(diag_views(out@) + spec_parse(reg, alllines.skip(idx as int), (idx as nat) + 1)
            =~= diag_views(out@));
    }
    out
}

} // verus!
