use cheaps_asm::history::History;
use cheaps_asm::instructions::{ErrorKind, Grammar, Instruction, InstructionList};
use cheaps_asm::parser::{parse, Diagnostic};

#[test]
fn let_line_encodes_to_the_documented_word() {
    let list = InstructionList::new();
    let diags = parse(&list, "\tLET R1 BE 2000");
    assert_eq!(
        diags,
        vec![Diagnostic::EncodedWord {
            line: 1,
            op_code: 1,
            word: 0b00001000100000111110100000000000,
            tokens: vec!["R1".to_string(), "BE".to_string(), "2000".to_string()],
        }]
    );
}

#[test]
fn add_line_with_both_flags_encodes_to_the_documented_word() {
    let list = InstructionList::new();
    let diags = parse(&list, "\tADD R1 TO R15 INTO R2 WITH CARRY WITH UPDATE");
    assert_eq!(diags.len(), 1);
    match &diags[0] {
        Diagnostic::EncodedWord { line, op_code, word, .. } => {
            assert_eq!(*line, 1);
            assert_eq!(*op_code, 11);
            assert_eq!(*word, 0b01011000111110010110000000000000);
        }
        other => panic!("unexpected diagnostic: {:?}", other),
    }
}

#[test]
fn sub_line_with_update_encodes_to_the_documented_word() {
    let list = InstructionList::new();
    let diags = parse(&list, "\tSUB R1 FROM R15 INTO R2 WITH UPDATE");
    assert_eq!(diags.len(), 1);
    match &diags[0] {
        Diagnostic::EncodedWord { line, op_code, word, .. } => {
            assert_eq!(*line, 1);
            assert_eq!(*op_code, 12);
            assert_eq!(*word, 0b01100000111110010100000000000000);
        }
        other => panic!("unexpected diagnostic: {:?}", other),
    }
}

#[test]
fn label_then_nope_yields_two_diagnostics() {
    let list = InstructionList::new();
    let diags = parse(&list, "start\n\tNOPE");
    assert_eq!(
        diags,
        vec![
            Diagnostic::LabelFound { line: 1, name: "start".to_string() },
            Diagnostic::EncodedWord { line: 2, op_code: 0, word: 0, tokens: vec![] },
        ]
    );
}

#[test]
fn unknown_instruction_halts_the_pass() {
    let list = InstructionList::new();
    let diags = parse(&list, "\tFOO R1\nstart\n\tNOPE");
    assert_eq!(
        diags,
        vec![Diagnostic::Error { line: 1, kind: ErrorKind::UnknownInstruction }]
    );
}

#[test]
fn label_with_arguments_halts_the_pass() {
    let list = InstructionList::new();
    let diags = parse(&list, "too many tokens here\n\tNOPE");
    assert_eq!(
        diags,
        vec![Diagnostic::Error { line: 1, kind: ErrorKind::LabelArgumentError }]
    );
}

#[test]
fn blank_and_comment_lines_do_not_perturb_numbering() {
    let list = InstructionList::new();
    let diags = parse(&list, "# a comment\n\n\tFOO");
    assert_eq!(
        diags,
        vec![Diagnostic::Error { line: 3, kind: ErrorKind::UnknownInstruction }]
    );
}

#[test]
fn blank_and_comment_lines_produce_no_diagnostics() {
    let list = InstructionList::new();
    assert_eq!(parse(&list, "# only a comment\n\n   \n"), vec![]);
    assert_eq!(parse(&list, ""), vec![]);
    // A comment may sit after the leading tab as well.
    assert_eq!(parse(&list, "\t# still a comment"), vec![]);
}

#[test]
fn register_errors_carry_their_kind_and_line() {
    let list = InstructionList::new();
    assert_eq!(
        parse(&list, "\tLOG R16"),
        vec![Diagnostic::Error { line: 1, kind: ErrorKind::RegisterOutOfRange }]
    );
    assert_eq!(
        parse(&list, "\tLOG RX"),
        vec![Diagnostic::Error { line: 1, kind: ErrorKind::MalformedOperand }]
    );
    assert_eq!(
        parse(&list, "\tNOPE X"),
        vec![Diagnostic::Error { line: 1, kind: ErrorKind::ArgumentError }]
    );
}

#[test]
fn first_error_stops_every_later_line() {
    let list = InstructionList::new();
    // The malformed LET on line 2 hides the unknown mnemonic on line 3.
    let diags = parse(&list, "\tNOPE\n\tLET R1 BE x\n\tFOO");
    assert_eq!(diags.len(), 2);
    assert_eq!(
        diags[1],
        Diagnostic::Error { line: 2, kind: ErrorKind::MalformedOperand }
    );
}

#[test]
fn carriage_returns_are_token_separators() {
    let list = InstructionList::new();
    let diags = parse(&list, "start\r\n\tNOPE\r\n");
    assert_eq!(
        diags,
        vec![
            Diagnostic::LabelFound { line: 1, name: "start".to_string() },
            Diagnostic::EncodedWord { line: 2, op_code: 0, word: 0, tokens: vec![] },
        ]
    );
}

#[test]
fn history_records_and_finds_by_name() {
    let mut history = History::new();
    assert!(history.get_instruction_by_name("LET").is_none());
    history.add_instruction(Instruction {
        op_code: 1,
        op_name: "LET".to_string(),
        grammar: Grammar::Let,
    });
    history.add_instruction(Instruction {
        op_code: 20,
        op_name: "LOG".to_string(),
        grammar: Grammar::Log,
    });
    let found = history.get_instruction_by_name("LOG").unwrap();
    assert_eq!(found.get_op_code(), 20);
    assert_eq!(found.get_op_name(), "LOG");
    assert!(history.get_instruction_by_name("ADD").is_none());
}
