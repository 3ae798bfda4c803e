use cheaps_asm::instructions::{
    get_register_number, parse_add, parse_div, parse_let, parse_log, parse_mul, parse_nope,
    parse_sub, ErrorKind, InstructionList,
};

#[test]
fn test_instruction_let_correct_parsed() {
    let list = InstructionList::new();
    let let_instr = list.get_instruction_by_name("LET").unwrap();
    // LET R1 BE 2000
    let args = vec!["R1", "BE", "2000"];
    let res = let_instr.parse_args(args);

    assert!(res.is_ok());
    assert_eq!(res.unwrap(), 0b00001000100000111110100000000000);
}

#[test]
fn test_instruction_add_without_flags() {
    let list = InstructionList::new();
    let add_instr = list.get_instruction_by_name("ADD").unwrap();
    let res = add_instr.parse_args(vec!["R1", "TO", "R15", "INTO", "R2"]);
    assert_eq!(res, Ok(0b01011000111110010000000000000000));
}

#[test]
fn test_instruction_add_with_carry() {
    let list = InstructionList::new();
    let add_instr = list.get_instruction_by_name("ADD").unwrap();
    let res = add_instr.parse_args(vec!["R1", "TO", "R15", "INTO", "R2", "WITH", "CARRY"]);
    assert_eq!(res, Ok(0b01011000111110010100000000000000));
}

#[test]
fn test_instruction_add_with_update() {
    let list = InstructionList::new();
    let add_instr = list.get_instruction_by_name("ADD").unwrap();
    let res = add_instr.parse_args(vec!["R1", "TO", "R15", "INTO", "R2", "WITH", "UPDATE"]);
    assert_eq!(res, Ok(0b01011000111110010010000000000000));
}

#[test]
fn test_instruction_add_with_carry_and_update() {
    let list = InstructionList::new();
    let add_instr = list.get_instruction_by_name("ADD").unwrap();
    let res = add_instr.parse_args(vec![
        "R1", "TO", "R15", "INTO", "R2", "WITH", "CARRY", "WITH", "UPDATE",
    ]);
    assert_eq!(res, Ok(0b01011000111110010110000000000000));
}

#[test]
fn test_instruction_add_with_carry_and_update_2() {
    let list = InstructionList::new();
    let add_instr = list.get_instruction_by_name("ADD").unwrap();
    let res = add_instr.parse_args(vec![
        "R1", "TO", "R15", "INTO", "R2", "WITH", "UPDATE", "WITH", "CARRY",
    ]);
    assert_eq!(res, Ok(0b01011000111110010110000000000000));
}

#[test]
fn test_instruction_sub_without_flags() {
    let list = InstructionList::new();
    let sub_instr = list.get_instruction_by_name("SUB").unwrap();
    let res = sub_instr.parse_args(vec!["R1", "FROM", "R15", "INTO", "R2"]);
    assert_eq!(res, Ok(0b01100000111110010000000000000000));
}

#[test]
fn test_instruction_sub_with_update() {
    let list = InstructionList::new();
    let sub_instr = list.get_instruction_by_name("SUB").unwrap();
    let res = sub_instr.parse_args(vec!["R1", "FROM", "R15", "INTO", "R2", "WITH", "UPDATE"]);
    assert_eq!(res, Ok(0b01100000111110010100000000000000));
}

#[test]
fn register_tokens_parse_to_exact_index() {
    for i in 0u32..16 {
        let token = format!("R{}", i);
        assert_eq!(get_register_number(&token), Ok(i));
    }
    // A leading zero is still one-or-two digits.
    assert_eq!(get_register_number("R07"), Ok(7));
    assert_eq!(get_register_number("R00"), Ok(0));
}

#[test]
fn register_sixteen_and_up_out_of_range() {
    assert_eq!(get_register_number("R16"), Err(ErrorKind::RegisterOutOfRange));
    assert_eq!(get_register_number("R17"), Err(ErrorKind::RegisterOutOfRange));
    assert_eq!(get_register_number("R99"), Err(ErrorKind::RegisterOutOfRange));
}

#[test]
fn register_malformed_tokens_rejected() {
    assert_eq!(get_register_number("R1X"), Err(ErrorKind::MalformedOperand));
    assert_eq!(get_register_number("RX"), Err(ErrorKind::MalformedOperand));
    assert_eq!(get_register_number("R"), Err(ErrorKind::MalformedOperand));
    assert_eq!(get_register_number("R123"), Err(ErrorKind::MalformedOperand));
    assert_eq!(get_register_number("r1"), Err(ErrorKind::MalformedOperand));
    assert_eq!(get_register_number("15"), Err(ErrorKind::MalformedOperand));
    assert_eq!(get_register_number(""), Err(ErrorKind::MalformedOperand));
}

#[test]
fn let_round_trip_recovers_register_and_value() {
    let values = [0u32, 1, 127, 128, 2000, 65535];
    for r in 0u32..16 {
        for v in values.iter() {
            let reg_token = format!("R{}", r);
            let val_token = format!("{}", v);
            let bits = parse_let(vec![&reg_token, "BE", &val_token]).unwrap();
            assert_eq!((bits >> 23) & 0xF, r);
            assert_eq!((bits >> 7) & 0xFFFF, *v);
        }
    }
}

#[test]
fn let_malformed_or_oversized_literal_fails() {
    assert_eq!(parse_let(vec!["R1", "BE", "12x"]), Err(ErrorKind::MalformedOperand));
    assert_eq!(parse_let(vec!["R1", "BE", ""]), Err(ErrorKind::MalformedOperand));
    assert_eq!(parse_let(vec!["R1", "BE", "65536"]), Err(ErrorKind::MalformedOperand));
    assert_eq!(parse_let(vec!["R1", "IS", "5"]), Err(ErrorKind::ArgumentError));
    assert_eq!(parse_let(vec!["R1", "BE"]), Err(ErrorKind::ArgumentError));
    assert_eq!(parse_let(vec!["R16", "BE", "5"]), Err(ErrorKind::RegisterOutOfRange));
}

#[test]
fn nope_rejects_any_operand() {
    assert_eq!(parse_nope(vec![]), Ok(0));
    assert_eq!(parse_nope(vec!["X"]), Err(ErrorKind::ArgumentError));
}

#[test]
fn log_takes_exactly_one_register() {
    assert_eq!(parse_log(vec!["R3"]), Ok(3 << 23));
    assert_eq!(parse_log(vec![]), Err(ErrorKind::ArgumentError));
    assert_eq!(parse_log(vec!["R1", "R2"]), Err(ErrorKind::ArgumentError));
    assert_eq!(parse_log(vec!["R16"]), Err(ErrorKind::RegisterOutOfRange));
    assert_eq!(parse_log(vec!["RQ"]), Err(ErrorKind::MalformedOperand));
}

#[test]
fn mul_and_div_share_the_sub_layout() {
    let expected = (2u32 << 23) | (3 << 19) | (4 << 15);
    assert_eq!(parse_mul(vec!["R2", "WITH", "R3", "INTO", "R4"]), Ok(expected));
    assert_eq!(
        parse_mul(vec!["R2", "WITH", "R3", "INTO", "R4", "WITH", "UPDATE"]),
        Ok(expected | (1 << 14))
    );
    assert_eq!(parse_div(vec!["R2", "BY", "R3", "INTO", "R4"]), Ok(expected));
    assert_eq!(
        parse_div(vec!["R2", "BY", "R3", "INTO", "R4", "WITH", "UPDATE"]),
        Ok(expected | (1 << 14))
    );
    assert_eq!(parse_sub(vec!["R2", "BY", "R3", "INTO", "R4"]), Err(ErrorKind::ArgumentError));
    assert_eq!(parse_div(vec!["R2", "FROM", "R3", "INTO", "R4"]), Err(ErrorKind::ArgumentError));
}

#[test]
fn add_update_bit_never_collides_with_sub_update_bit() {
    let add_bits = parse_add(vec!["R1", "TO", "R15", "INTO", "R2", "WITH", "UPDATE"]).unwrap();
    let sub_bits = parse_sub(vec!["R1", "FROM", "R15", "INTO", "R2", "WITH", "UPDATE"]).unwrap();
    // ADD's update flag is bit 13; SUB's is bit 14.
    assert_eq!(add_bits & (1 << 13), 1 << 13);
    assert_eq!(add_bits & (1 << 14), 0);
    assert_eq!(sub_bits & (1 << 14), 1 << 14);
    assert_eq!(sub_bits & (1 << 13), 0);
}

#[test]
fn registry_lookup_is_exact_and_case_sensitive() {
    let list = InstructionList::new();
    assert_eq!(list.get_instruction_by_name("ADD").unwrap().get_op_code(), 11);
    assert_eq!(list.get_instruction_by_name("NOPE").unwrap().get_op_code(), 0);
    assert_eq!(list.get_instruction_by_name("SETPX").unwrap().get_op_code(), 22);
    assert!(list.get_instruction_by_name("FOO").is_none());
    assert!(list.get_instruction_by_name("add").is_none());
    assert!(list.get_instruction_by_name("").is_none());
}

#[test]
fn placeholder_mnemonics_alias_other_grammars() {
    let list = InstructionList::new();
    // JUMP reuses ADD's grammar but keeps its own opcode.
    let jump = list.get_instruction_by_name("JUMP").unwrap();
    let word = jump.parse_args(vec!["R1", "TO", "R15", "INTO", "R2"]).unwrap();
    assert_eq!(word, (8u32 << 27) | (1 << 23) | (15 << 19) | (2 << 15));
    // XOR reuses DIV's grammar.
    let xor = list.get_instruction_by_name("XOR").unwrap();
    let word = xor.parse_args(vec!["R2", "BY", "R3", "INTO", "R4"]).unwrap();
    assert_eq!(word, (18u32 << 27) | (2 << 23) | (3 << 19) | (4 << 15));
}
