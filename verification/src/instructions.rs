//! The instruction registry and the operand encoders: one pure encoder per
//! operand grammar, a fixed table of 23 descriptors, and the bit-packing
//! rules for the 32-bit machine word.
//!
//! Bit layout of an encoded word: bits [31:27] hold the opcode; an operand
//! encoder only ever sets bits [26:0].

use vstd::prelude::*;

use crate::text::{
    dec_val, is_dec_token, is_digit, parse_dec_bounded, str_eq,
};

verus! {

/// The classified failures a pass can report.
#[derive(Clone, Copy, Debug, PartialEq, Eq, Structural)]
pub enum ErrorKind {
    /// The mnemonic is not in the registry.
    UnknownInstruction,
    /// A label line holds more than one token.
    LabelArgumentError,
    /// Wrong operand count or a missing required keyword.
    ArgumentError,
    /// A register token names a register outside 0..=15.
    RegisterOutOfRange,
    /// A token does not match the expected register or literal pattern.
    MalformedOperand,
}

/// The operand grammars. Several mnemonics share a grammar; that aliasing is
/// a registry-level mapping, carried by each descriptor's `grammar` field.
#[derive(Clone, Copy, Debug, PartialEq, Eq, Structural)]
pub enum Grammar {
    Nope,
    Let,
    Add,
    Sub,
    Mul,
    Div,
    Log,
}

/// A register token: `R` followed by one or two decimal digits.
pub open spec fn is_reg_token(s: Seq<char>) -> bool {
    (s.len() == 2 || s.len() == 3) && s[0] == 'R' && (forall|i: int|
        1 <= i < s.len() ==> is_digit(s[i]))
}

/// The register index named by a register token.
pub open spec fn reg_token_val(s: Seq<char>) -> nat {
    dec_val(s.skip(1))
}

/// What register parsing yields: the index in 0..=15, or the classified
/// rejection. Out-of-range indices are rejected, never clamped.
pub open spec fn spec_register(s: Seq<char>) -> Result<u32, ErrorKind> {
    if !is_reg_token(s) {
        Err(ErrorKind::MalformedOperand)
    } else if reg_token_val(s) >= 16 {
        Err(ErrorKind::RegisterOutOfRange)
    } else {
        Ok(reg_token_val(s) as u32)
    }
}

/// The optional `WITH CARRY` / `WITH UPDATE` clauses of ADD, in any order;
/// yields (carry, update) or rejects the suffix.
pub open spec fn spec_flag_suffix(s: Seq<Seq<char>>) -> Option<(bool, bool)> {
    if s.len() == 0 {
        Some((false, false))
    } else if s.len() == 2 && s[0] == "WITH"@ && s[1] == "CARRY"@ {
        Some((true, false))
    } else if s.len() == 2 && s[0] == "WITH"@ && s[1] == "UPDATE"@ {
        Some((false, true))
    } else if s.len() == 4 && s[0] == "WITH"@ && s[2] == "WITH"@ && ((s[1] == "CARRY"@ && s[3]
        == "UPDATE"@) || (s[1] == "UPDATE"@ && s[3] == "CARRY"@)) {
        Some((true, true))
    } else {
        None
    }
}

/// The optional `WITH UPDATE` clause of SUB, MUL and DIV.
pub open spec fn spec_update_suffix(s: Seq<Seq<char>>) -> Option<bool> {
    if s.len() == 0 {
        Some(false)
    } else if s.len() == 2 && s[0] == "WITH"@ && s[1] == "UPDATE"@ {
        Some(true)
    } else {
        None
    }
}

/// The three register fields shared by ADD, SUB, MUL and DIV.
pub open spec fn reg3_bits(r1: u32, r2: u32, r3: u32) -> u32 {
    (r1 << 23) | (r2 << 19) | (r3 << 15)
}

/// NOPE takes no operands.
pub open spec fn spec_parse_nope(args: Seq<Seq<char>>) -> Result<u32, ErrorKind> {
    if args.len() == 0 {
        Ok(0u32)
    } else {
        Err(ErrorKind::ArgumentError)
    }
}

/// LET `<reg> BE <uint>`: register in bits [26:23], 16-bit immediate in
/// bits [22:7]. A malformed or oversized literal is an error, never a
/// silent zero.
pub open spec fn spec_parse_let(args: Seq<Seq<char>>) -> Result<u32, ErrorKind> {
    if args.len() != 3 || args[1] != "BE"@ {
        Err(ErrorKind::ArgumentError)
    } else {
        match spec_register(args[0]) {
            Err(e) => Err(e),
            Ok(r) => if is_dec_token(args[2]) && dec_val(args[2]) <= 0xFFFF {
                Ok((r << 23) | ((dec_val(args[2]) as u32) << 7))
            } else {
                Err(ErrorKind::MalformedOperand)
            },
        }
    }
}

/// ADD `<reg1> TO <reg2> INTO <reg3> [WITH CARRY] [WITH UPDATE]`: registers
/// in bits [26:23], [22:19], [18:15]; carry in bit 14, update in bit 13.
pub open spec fn spec_parse_add(args: Seq<Seq<char>>) -> Result<u32, ErrorKind> {
    if args.len() < 5 || args[1] != "TO"@ || args[3] != "INTO"@ {
        Err(ErrorKind::ArgumentError)
    } else {
        match spec_register(args[0]) {
            Err(e) => Err(e),
            Ok(r1) => match spec_register(args[2]) {
                Err(e) => Err(e),
                Ok(r2) => match spec_register(args[4]) {
                    Err(e) => Err(e),
                    Ok(r3) => match spec_flag_suffix(args.skip(5)) {
                        None => Err(ErrorKind::ArgumentError),
                        Some((carry, update)) => Ok(
                            reg3_bits(r1, r2, r3) | (if carry {
                                1u32 << 14
                            } else {
                                0u32
                            }) | (if update {
                                1u32 << 13
                            } else {
                                0u32
                            }),
                        ),
                    },
                },
            },
        }
    }
}

/// The shared shape of SUB, MUL and DIV: `<reg1> <kw> <reg2> INTO <reg3>
/// [WITH UPDATE]`, with the update flag in bit 14.
pub open spec fn spec_parse_arith(args: Seq<Seq<char>>, kw: Seq<char>) -> Result<u32, ErrorKind> {
    if args.len() < 5 || args[1] != kw || args[3] != "INTO"@ {
        Err(ErrorKind::ArgumentError)
    } else {
        match spec_register(args[0]) {
            Err(e) => Err(e),
            Ok(r1) => match spec_register(args[2]) {
                Err(e) => Err(e),
                Ok(r2) => match spec_register(args[4]) {
                    Err(e) => Err(e),
                    Ok(r3) => match spec_update_suffix(args.skip(5)) {
                        None => Err(ErrorKind::ArgumentError),
                        Some(update) => Ok(
                            reg3_bits(r1, r2, r3) | (if update {
                                1u32 << 14
                            } else {
                                0u32
                            }),
                        ),
                    },
                },
            },
        }
    }
}

pub open spec fn spec_parse_sub(args: Seq<Seq<char>>) -> Result<u32, ErrorKind> {
    spec_parse_arith(args, "FROM"@)
}

pub open spec fn spec_parse_mul(args: Seq<Seq<char>>) -> Result<u32, ErrorKind> {
    spec_parse_arith(args, "WITH"@)
}

pub open spec fn spec_parse_div(args: Seq<Seq<char>>) -> Result<u32, ErrorKind> {
    spec_parse_arith(args, "BY"@)
}

/// LOG `<reg>`: register in bits [26:23].
pub open spec fn spec_parse_log(args: Seq<Seq<char>>) -> Result<u32, ErrorKind> {
    if args.len() != 1 {
        Err(ErrorKind::ArgumentError)
    } else {
        match spec_register(args[0]) {
            Err(e) => Err(e),
            Ok(r) => Ok(r << 23),
        }
    }
}

/// The operand bits a grammar yields for a token list.
pub open spec fn spec_encode(g: Grammar, args: Seq<Seq<char>>) -> Result<u32, ErrorKind> {
    match g {
        Grammar::Nope => spec_parse_nope(args),
        Grammar::Let => spec_parse_let(args),
        Grammar::Add => spec_parse_add(args),
        Grammar::Sub => spec_parse_sub(args),
        Grammar::Mul => spec_parse_mul(args),
        Grammar::Div => spec_parse_div(args),
        Grammar::Log => spec_parse_log(args),
    }
}

/// Shared register-token validation: match `R` plus one or two digits,
/// parse the digits, and reject an index of 16 or more.
pub fn get_register_number(register: &str) -> (r: Result<u32, ErrorKind>)
    ensures
        r == spec_register(register@),
{
    let n = register.unicode_len();
    if n < 2 || n > 3 {
        return Err(ErrorKind::MalformedOperand);
    }
    if register.get_char(0) != 'R' {
        return Err(ErrorKind::MalformedOperand);
    }
    let mut val: u32 = 0;
    let mut i: usize = 1;
    proof {
        assert(register@.subrange(1, 1) =~= Seq::<char>::empty());
    }
    while i < n
        invariant
            2 <= n <= 3,
            n == register@.len(),
            1 <= i <= n,
            i == 2 ==> val <= 9,
            val <= 99,
            forall|k: int| 1 <= k < i ==> is_digit(register@[k]),
            val == dec_val(register@.subrange(1, i as int)),
        decreases n - i,
    {
        let cv = register.get_char(i) as u32;
        if cv < 48 || cv > 57 {
            assert(!is_digit(register@[i as int]));
            return Err(ErrorKind::MalformedOperand);
        }
        proof {
            assert(is_digit(register@[i as int]));
            assert(register@.subrange(1, i as int + 1).drop_last() =~= register@.subrange(
                1,
                i as int,
            ));
            assert(register@.subrange(1, i as int + 1).last() == register@[i as int]);
        }
        val = val * 10 + (cv - 48);
        i += 1;
    }
    proof {
        assert(register@.subrange(1, n as int) =~= register@.skip(1));
        assert(is_reg_token(register@));
    }
    if val >= 16 {
        Err(ErrorKind::RegisterOutOfRange)
    } else {
        Ok(val)
    }
}

/// NOPE: any operand token is an error.
pub fn parse_nope(args: Vec<&str>) -> (r: Result<u32, ErrorKind>)
    ensures
        r == spec_parse_nope(args.deep_view()),
{
    if args.len() != 0 {
        Err(ErrorKind::ArgumentError)
    } else {
        Ok(0)
    }
}

/// LET `<reg> BE <uint>`.
pub fn parse_let(args: Vec<&str>) -> (r: Result<u32, ErrorKind>)
    ensures
        r == spec_parse_let(args.deep_view()),
{
    let ghost dv = args.deep_view();
    if args.len() != 3 {
        return Err(ErrorKind::ArgumentError);
    }
    if !str_eq(args[1], "BE") {
        return Err(ErrorKind::ArgumentError);
    }
    let reg = match get_register_number(args[0]) {
        Ok(v) => v,
        Err(e) => {
            return Err(e);
        },
    };
    let value = match parse_dec_bounded(args[2]) {
        Some(v) => v,
        None => {
            return Err(ErrorKind::MalformedOperand);
        },
    };
    Ok((reg << 23) | (value << 7))
}

/// Parses the optional flag suffix of ADD from `args[5..]`.
fn add_flags(args: &Vec<&str>) -> (r: Option<(bool, bool)>)
    requires
        args@.len() >= 5,
    ensures
        r == spec_flag_suffix(args.deep_view().skip(5)),
{
    let ghost suf = args.deep_view().skip(5);
    let m = args.len();
    proof {
        assert(suf.len() == m - 5);
        assert(forall|k: int| 0 <= k < suf.len() ==> suf[k] == args@[k + 5]@);
    }
    if m == 5 {
        Some((false, false))
    } else if m == 7 && str_eq(args[5], "WITH") && str_eq(args[6], "CARRY") {
        Some((true, false))
    } else if m == 7 && str_eq(args[5], "WITH") && str_eq(args[6], "UPDATE") {
        Some((false, true))
    } else if m == 9 && str_eq(args[5], "WITH") && str_eq(args[7], "WITH") && ((str_eq(
        args[6],
        "CARRY",
    ) && str_eq(args[8], "UPDATE")) || (str_eq(args[6], "UPDATE") && str_eq(args[8], "CARRY"))) {
        Some((true, true))
    } else {
        None
    }
}

/// Parses the optional `WITH UPDATE` suffix of SUB, MUL and DIV from
/// `args[5..]`.
fn update_flag(args: &Vec<&str>) -> (r: Option<bool>)
    requires
        args@.len() >= 5,
    ensures
        r == spec_update_suffix(args.deep_view().skip(5)),
{
    let ghost suf = args.deep_view().skip(5);
    let m = args.len();
    proof {
        assert(suf.len() == m - 5);
        assert(forall|k: int| 0 <= k < suf.len() ==> suf[k] == args@[k + 5]@);
    }
    if m == 5 {
        Some(false)
    } else if m == 7 && str_eq(args[5], "WITH") && str_eq(args[6], "UPDATE") {
        Some(true)
    } else {
        None
    }
}

/// ADD `<reg1> TO <reg2> INTO <reg3> [WITH CARRY] [WITH UPDATE]`.
pub fn parse_add(args: Vec<&str>) -> (r: Result<u32, ErrorKind>)
    ensures
        r == spec_parse_add(args.deep_view()),
{
    if args.len() < 5 {
        return Err(ErrorKind::ArgumentError);
    }
    if !str_eq(args[1], "TO") || !str_eq(args[3], "INTO") {
        return Err(ErrorKind::ArgumentError);
    }
    let r1 = match get_register_number(args[0]) {
        Ok(v) => v,
        Err(e) => {
            return Err(e);
        },
    };
    let r2 = match get_register_number(args[2]) {
        Ok(v) => v,
        Err(e) => {
            return Err(e);
        },
    };
    let r3 = match get_register_number(args[4]) {
        Ok(v) => v,
        Err(e) => {
            return Err(e);
        },
    };
    let (carry, update) = match add_flags(&args) {
        Some(f) => f,
        None => {
            return Err(ErrorKind::ArgumentError);
        },
    };
    Ok(
        ((r1 << 23) | (r2 << 19) | (r3 << 15)) | (if carry {
            1u32 << 14
        } else {
            0u32
        }) | (if update {
            1u32 << 13
        } else {
            0u32
        }),
    )
}

/// The shared body of SUB, MUL and DIV, differing only in the keyword
/// between the first two registers.
fn parse_arith(args: Vec<&str>, kw: &str) -> (r: Result<u32, ErrorKind>)
    ensures
        r == spec_parse_arith(args.deep_view(), kw@),
{
    if args.len() < 5 {
        return Err(ErrorKind::ArgumentError);
    }
    if !str_eq(args[1], kw) || !str_eq(args[3], "INTO") {
        return Err(ErrorKind::ArgumentError);
    }
    let r1 = match get_register_number(args[0]) {
        Ok(v) => v,
        Err(e) => {
            return Err(e);
        },
    };
    let r2 = match get_register_number(args[2]) {
        Ok(v) => v,
        Err(e) => {
            return Err(e);
        },
    };
    let r3 = match get_register_number(args[4]) {
        Ok(v) => v,
        Err(e) => {
            return Err(e);
        },
    };
    let update = match update_flag(&args) {
        Some(f) => f,
        None => {
            return Err(ErrorKind::ArgumentError);
        },
    };
    Ok(
        ((r1 << 23) | (r2 << 19) | (r3 << 15)) | (if update {
            1u32 << 14
        } else {
            0u32
        }),
    )
}

/// SUB `<reg1> FROM <reg2> INTO <reg3> [WITH UPDATE]`; update in bit 14.
pub fn parse_sub(args: Vec<&str>) -> (r: Result<u32, ErrorKind>)
    ensures
        r == spec_parse_sub(args.deep_view()),
{
    parse_arith(args, "FROM")
}

/// MUL `<reg1> WITH <reg2> INTO <reg3> [WITH UPDATE]`; update in bit 14.
pub fn parse_mul(args: Vec<&str>) -> (r: Result<u32, ErrorKind>)
    ensures
        r == spec_parse_mul(args.deep_view()),
{
    parse_arith(args, "WITH")
}

/// DIV `<reg1> BY <reg2> INTO <reg3> [WITH UPDATE]`; update in bit 14.
pub fn parse_div(args: Vec<&str>) -> (r: Result<u32, ErrorKind>)
    ensures
        r == spec_parse_div(args.deep_view()),
{
    parse_arith(args, "BY")
}

/// LOG `<reg>`: exactly one token.
pub fn parse_log(args: Vec<&str>) -> (r: Result<u32, ErrorKind>)
    ensures
        r == spec_parse_log(args.deep_view()),
{
    if args.len() != 1 {
        return Err(ErrorKind::ArgumentError);
    }
    match get_register_number(args[0]) {
        Ok(v) => Ok(v << 23),
        Err(e) => Err(e),
    }
}

/// A registry entry: a mnemonic bound to its 5-bit opcode and the operand
/// grammar it uses.
#[derive(Debug, Clone, PartialEq, Eq)]
pub struct Instruction {
    pub op_code: u8,
    pub op_name: String,
    pub grammar: Grammar,
}

/// The full word an instruction encodes for a token list: the opcode in
/// bits [31:27], the operand bits below.
pub open spec fn spec_parse_args(i: Instruction, args: Seq<Seq<char>>) -> Result<u32, ErrorKind> {
    match spec_encode(i.grammar, args) {
        Ok(bits) => Ok(((i.op_code as u32) << 27) | bits),
        Err(e) => Err(e),
    }
}

impl Instruction {
    pub fn get_op_code(&self) -> (r: u8)
        ensures
            r == self.op_code,
    {
        self.op_code
    }

    pub fn get_op_name(&self) -> (r: &str)
        ensures
            r@ == self.op_name@,
    {
        self.op_name.as_str()
    }

    /// Validates the operand tokens under this descriptor's grammar and
    /// composes the final word.
    pub fn parse_args(&self, args: Vec<&str>) -> (r: Result<u32, ErrorKind>)
        ensures
            r == spec_parse_args(*self, args.deep_view()),
    {
        let bits = match self.grammar {
            Grammar::Nope => parse_nope(args),
            Grammar::Let => parse_let(args),
            Grammar::Add => parse_add(args),
            Grammar::Sub => parse_sub(args),
            Grammar::Mul => parse_mul(args),
            Grammar::Div => parse_div(args),
            Grammar::Log => parse_log(args),
        };
        match bits {
            Ok(b) => Ok(((self.op_code as u32) << 27) | b),
            Err(e) => Err(e),
        }
    }
}

/// One registry entry has the given opcode, mnemonic and grammar.
pub open spec fn entry_is(i: Instruction, code: u8, name: Seq<char>, g: Grammar) -> bool {
    i.op_code == code && i.op_name@ == name && i.grammar == g
}

/// The fixed table: 23 descriptors spanning opcodes 0..=22. The control-flow
/// placeholders alias ADD's grammar; several others alias DIV's.
pub open spec fn registry_ok(l: Seq<Instruction>) -> bool {
    &&& l.len() == 23
    &&& entry_is(l[0], 0, "NOPE"@, Grammar::Nope)
    &&& entry_is(l[1], 1, "LET"@, Grammar::Let)
    &&& entry_is(l[2], 2, "COPY"@, Grammar::Nope)
    &&& entry_is(l[3], 4, "READ"@, Grammar::Nope)
    &&& entry_is(l[4], 3, "WRITE"@, Grammar::Nope)
    &&& entry_is(l[5], 5, "PUSH"@, Grammar::Nope)
    &&& entry_is(l[6], 6, "POP"@, Grammar::Nope)
    &&& entry_is(l[7], 7, "PEEK"@, Grammar::Nope)
    &&& entry_is(l[8], 8, "JUMP"@, Grammar::Add)
    &&& entry_is(l[9], 9, "EVAL"@, Grammar::Add)
    &&& entry_is(l[10], 10, "COMP"@, Grammar::Add)
    &&& entry_is(l[11], 11, "ADD"@, Grammar::Add)
    &&& entry_is(l[12], 12, "SUB"@, Grammar::Sub)
    &&& entry_is(l[13], 13, "MUL"@, Grammar::Mul)
    &&& entry_is(l[14], 14, "DIV"@, Grammar::Div)
    &&& entry_is(l[15], 15, "NEG"@, Grammar::Div)
    &&& entry_is(l[16], 16, "OR"@, Grammar::Div)
    &&& entry_is(l[17], 17, "AND"@, Grammar::Div)
    &&& entry_is(l[18], 18, "XOR"@, Grammar::Div)
    &&& entry_is(l[19], 19, "SHIFT"@, Grammar::Div)
    &&& entry_is(l[20], 20, "LOG"@, Grammar::Log)
    &&& entry_is(l[21], 21, "CLEAR"@, Grammar::Div)
    &&& entry_is(l[22], 22, "SETPX"@, Grammar::Div)
}

/// The fixed registry binds each mnemonic exactly once: no two entries carry
/// the same name, so a lookup's first match is its only match.
pub proof fn lemma_registry_mnemonics_unique(l: Seq<Instruction>)
    requires
        registry_ok(l),
    ensures
        forall|i: int, j: int| 0 <= i < j < l.len() ==> l[i].op_name@ != l[j].op_name@,
{
    reveal_strlit("NOPE");
    reveal_strlit("LET");
    reveal_strlit("COPY");
    reveal_strlit("READ");
    reveal_strlit("WRITE");
    reveal_strlit("PUSH");
    reveal_strlit("POP");
    reveal_strlit("PEEK");
    reveal_strlit("JUMP");
    reveal_strlit("EVAL");
    reveal_strlit("COMP");
    reveal_strlit("ADD");
    reveal_strlit("SUB");
    reveal_strlit("MUL");
    reveal_strlit("DIV");
    reveal_strlit("NEG");
    reveal_strlit("OR");
    reveal_strlit("AND");
    reveal_strlit("XOR");
    reveal_strlit("SHIFT");
    reveal_strlit("LOG");
    reveal_strlit("CLEAR");
    reveal_strlit("SETPX");
    assert forall|i: int, j: int| 0 <= i < j < l.len() implies l[i].op_name@ != l[j].op_name@ by {
        if l[i].op_name@ == l[j].op_name@ {
            assert(l[i].op_name@.len() == l[j].op_name@.len());
            assert(l[i].op_name@[0] == l[j].op_name@[0]);
            assert(l[i].op_name@[1] == l[j].op_name@[1]);
            assert(l[i].op_name@[2] == l[j].op_name@[2]);
        }
    }
}

/// The first registry entry whose mnemonic matches, if any; mnemonics are
/// compared by exact, case-sensitive match.
pub open spec fn spec_lookup(reg: Seq<Instruction>, name: Seq<char>) -> Option<Instruction>
    decreases reg.len(),
{
    if reg.len() == 0 {
        None
    } else if reg[0].op_name@ == name {
        Some(reg[0])
    } else {
        spec_lookup(reg.skip(1), name)
    }
}

/// A scan that finds the first matching entry pins `spec_lookup` down.
pub proof fn lemma_lookup_at(reg: Seq<Instruction>, name: Seq<char>, j: int)
    requires
        0 <= j < reg.len(),
        forall|k: int| 0 <= k < j ==> reg[k].op_name@ != name,
        reg[j].op_name@ == name,
    ensures
        spec_lookup(reg, name) == Some(reg[j]),
    decreases j,
{
    if j > 0 {
        lemma_lookup_at(reg.skip(1), name, j - 1);
    }
}

/// A scan that matches nothing pins `spec_lookup` to `None`.
pub proof fn lemma_lookup_none(reg: Seq<Instruction>, name: Seq<char>)
    requires
        forall|k: int| 0 <= k < reg.len() ==> reg[k].op_name@ != name,
    ensures
        spec_lookup(reg, name) is None,
    decreases reg.len(),
{
    if reg.len() > 0 {
        lemma_lookup_none(reg.skip(1), name);
    }
}

/// The registry: built once, read-only thereafter.
pub struct InstructionList {
    pub instructions: Vec<Instruction>,
}

impl InstructionList {
    /// Builds the fixed 23-entry table.
    pub fn new() -> (r: Self)
        ensures
            registry_ok(r.instructions@),
    {
        let mut v: Vec<Instruction> = Vec::new();
        v.push(Instruction { op_code: 0, op_name: "NOPE".to_owned(), grammar: Grammar::Nope });
        v.push(Instruction { op_code: 1, op_name: "LET".to_owned(), grammar: Grammar::Let });
        v.push(Instruction { op_code: 2, op_name: "COPY".to_owned(), grammar: Grammar::Nope });
        v.push(Instruction { op_code: 4, op_name: "READ".to_owned(), grammar: Grammar::Nope });
        v.push(Instruction { op_code: 3, op_name: "WRITE".to_owned(), grammar: Grammar::Nope });
        v.push(Instruction { op_code: 5, op_name: "PUSH".to_owned(), grammar: Grammar::Nope });
        v.push(Instruction { op_code: 6, op_name: "POP".to_owned(), grammar: Grammar::Nope });
        v.push(Instruction { op_code: 7, op_name: "PEEK".to_owned(), grammar: Grammar::Nope });
        v.push(Instruction { op_code: 8, op_name: "JUMP".to_owned(), grammar: Grammar::Add });
        v.push(Instruction { op_code: 9, op_name: "EVAL".to_owned(), grammar: Grammar::Add });
        v.push(Instruction { op_code: 10, op_name: "COMP".to_owned(), grammar: Grammar::Add });
        v.push(Instruction { op_code: 11, op_name: "ADD".to_owned(), grammar: Grammar::Add });
        v.push(Instruction { op_code: 12, op_name: "SUB".to_owned(), grammar: Grammar::Sub });
        v.push(Instruction { op_code: 13, op_name: "MUL".to_owned(), grammar: Grammar::Mul });
        v.push(Instruction { op_code: 14, op_name: "DIV".to_owned(), grammar: Grammar::Div });
        v.push(Instruction { op_code: 15, op_name: "NEG".to_owned(), grammar: Grammar::Div });
        v.push(Instruction { op_code: 16, op_name: "OR".to_owned(), grammar: Grammar::Div });
        v.push(Instruction { op_code: 17, op_name: "AND".to_owned(), grammar: Grammar::Div });
        v.push(Instruction { op_code: 18, op_name: "XOR".to_owned(), grammar: Grammar::Div });
        v.push(Instruction { op_code: 19, op_name: "SHIFT".to_owned(), grammar: Grammar::Div });
        v.push(Instruction { op_code: 20, op_name: "LOG".to_owned(), grammar: Grammar::Log });
        v.push(Instruction { op_code: 21, op_name: "CLEAR".to_owned(), grammar: Grammar::Div });
        v.push(Instruction { op_code: 22, op_name: "SETPX".to_owned(), grammar: Grammar::Div });
        InstructionList { instructions: v }
    }

    /// Looks a mnemonic up; `None` means `UnknownInstruction`.
    pub fn get_instruction_by_name(&self, name: &str) -> (r: Option<&Instruction>)
        ensures
            match r {
                Some(i) => spec_lookup(self.instructions@, name@) == Some(*i),
                None => spec_lookup(self.instructions@, name@) is None,
            },
    {
        let mut j: usize = 0;
        while j < self.instructions.len()
            invariant
                0 <= j <= self.instructions@.len(),
                forall|k: int| 0 <= k < j ==> self.instructions@[k].op_name@ != name@,
            decreases self.instructions@.len() - j,
        {
            let entry = &self.instructions[j];
            if str_eq(entry.op_name.as_str(), name) {
                proof {
                    lemma_lookup_at(self.instructions@, name@, j as int);
                }
                return Some(entry);
            }
            j += 1;
        }
        proof {
            lemma_lookup_none(self.instructions@, name@);
        }
        None
    }
}

} // verus!
