use proton::assembler::{assemble_source, AsmError};
use proton::codec::{decode_instructions, encode_program};
use proton::instruction::InstructionType;
use proton::lexer::{Lexer, LexerError, NumberType, TokenType};
use proton::parser::{ASTNode, Parser, ParserError};
use proton::word::Word;

#[test]
fn lexer_classifies_mnemonics_labels_numbers_and_strings() {
    let src = "PUSH 5 ; a comment\nfoo: DUP \"ab\"";
    let mut lexer = Lexer::new(src);
    let n = lexer.lex().unwrap();
    assert_eq!(n, 6);
    assert!(matches!(
        lexer.tokens[0].tt,
        TokenType::InstructionType(InstructionType::INST_PUSH)
    ));
    assert!(matches!(
        lexer.tokens[1].tt,
        TokenType::Number(NumberType::U16(5))
    ));
    assert!(matches!(lexer.tokens[2].tt, TokenType::Label(_, _)));
    assert!(matches!(lexer.tokens[3].tt, TokenType::Colon));
    assert!(matches!(
        lexer.tokens[4].tt,
        TokenType::InstructionType(InstructionType::INST_DUP)
    ));
    match &lexer.tokens[5].tt {
        TokenType::StringLit(s) => assert_eq!(s, "ab"),
        other => panic!("expected a string token, got {:?}", other),
    }
}

#[test]
fn lexer_refuses_numbers_above_sixteen_bits() {
    let mut lexer = Lexer::new("PUSH 70000");
    assert_eq!(lexer.lex(), Err(LexerError::InvalidNumber));
}

#[test]
fn lexer_refuses_float_literals() {
    let mut lexer = Lexer::new("PUSH 1.5");
    assert_eq!(lexer.lex(), Err(LexerError::InvalidNumber));
}

#[test]
fn lexer_accepts_the_largest_integer() {
    let mut lexer = Lexer::new("PUSH 65535");
    lexer.lex().unwrap();
    assert!(matches!(
        lexer.tokens[1].tt,
        TokenType::Number(NumberType::U16(65535))
    ));
}

#[test]
fn empty_source_has_no_tokens() {
    let mut lexer = Lexer::new("");
    assert_eq!(lexer.lex(), Err(LexerError::EOFWithNoTokens));
    let mut lexer = Lexer::new("; only a comment");
    assert_eq!(lexer.lex(), Err(LexerError::EOFWithNoTokens));
}

#[test]
fn parser_builds_labels_over_instructions() {
    let src = "main:\nPUSH 1\nPOP";
    let mut lexer = Lexer::new(src);
    lexer.lex().unwrap();
    let mut parser = Parser::new(src);
    let nodes = parser.parse(lexer.tokens).unwrap();
    assert_eq!(nodes.len(), 1);
    match &nodes[0] {
        ASTNode::Label(name, body) => {
            assert_eq!(name, "main");
            assert_eq!(body.len(), 2);
        }
        other => panic!("expected a label node, got {:?}", other),
    }
}

#[test]
fn parser_reports_missing_operands() {
    let src = "PUSH";
    let mut lexer = Lexer::new(src);
    lexer.lex().unwrap();
    let mut parser = Parser::new(src);
    assert!(matches!(
        parser.parse(lexer.tokens),
        Err(ParserError::UnexpectedEOF)
    ));
}

#[test]
fn parser_reports_operands_of_the_wrong_kind() {
    let src = "PUSH :";
    let mut lexer = Lexer::new(src);
    lexer.lex().unwrap();
    let mut parser = Parser::new(src);
    assert!(matches!(
        parser.parse(lexer.tokens),
        Err(ParserError::InvalidInstructionFormat)
    ));
}

#[test]
fn parser_refuses_a_stray_colon() {
    let src = ": PUSH 1";
    let mut lexer = Lexer::new(src);
    lexer.lex().unwrap();
    let mut parser = Parser::new(src);
    assert!(matches!(
        parser.parse(lexer.tokens),
        Err(ParserError::UnexpectedToken)
    ));
}

#[test]
fn variables_get_distinct_slots_and_repeats_share_one() {
    let out = assemble_source("STORE x\nSTORE y\nSTORE x\n").unwrap();
    assert_eq!(out.len(), 3);
    assert_eq!(out[0].values, Some(vec![Word::U16(0)]));
    assert_eq!(out[1].values, Some(vec![Word::U16(1)]));
    assert_eq!(out[2].values, Some(vec![Word::U16(0)]));
}

#[test]
fn labels_resolve_to_post_prepend_addresses() {
    let out = assemble_source("main:\nPUSH 1\nloop:\nPUSH 0\nJMPZ loop\n").unwrap();
    let ops: Vec<InstructionType> = out.iter().map(|i| i.tt).collect();
    assert_eq!(
        ops,
        vec![
            InstructionType::INST_CALL,
            InstructionType::INST_PUSH,
            InstructionType::INST_PUSH,
            InstructionType::INST_JMPZ,
        ]
    );
    // the prepended call targets main, at index 1 after the shift
    assert_eq!(out[0].values, Some(vec![Word::U16(1)]));
    // the jump targets loop, at index 2 after the shift
    assert_eq!(out[3].values, Some(vec![Word::U16(2)]));
}

#[test]
fn s6_assembled_image_survives_the_codec() {
    let out = assemble_source("main:\nPUSH 1\nloop:\nPUSH 0\nJMPZ loop\nPUSH_STR \"ok\"\n").unwrap();
    assert_eq!(out[0].tt, InstructionType::INST_CALL);
    let bytes = encode_program(&out);
    let back = decode_instructions(&bytes).unwrap();
    assert_eq!(back, out);
    let ops: Vec<InstructionType> = back.iter().map(|i| i.tt).collect();
    let expected: Vec<InstructionType> = out.iter().map(|i| i.tt).collect();
    assert_eq!(ops, expected);
}

#[test]
fn duplicate_labels_are_refused() {
    assert_eq!(
        assemble_source("a:\nPUSH 1\na:\nPUSH 2\n"),
        Err(AsmError::DuplicateLabel)
    );
}

#[test]
fn a_name_with_no_label_takes_a_pool_slot() {
    let out = assemble_source("JMPZ nowhere\nPUSH 1\n").unwrap();
    assert_eq!(out[0].values, Some(vec![Word::U16(0)]));
}

#[test]
fn string_operands_flatten_to_length_and_characters() {
    let out = assemble_source("PUSH_STR \"hi\"\n").unwrap();
    assert_eq!(
        out[0].values,
        Some(vec![
            Word::U16(2),
            Word::Char('h'),
            Word::Char('i')
        ])
    );
}

#[test]
fn lex_errors_surface_from_the_pipeline() {
    assert_eq!(
        assemble_source(""),
        Err(AsmError::Lex(LexerError::EOFWithNoTokens))
    );
}

#[test]
fn an_identifier_run_is_read_whole_before_promotion() {
    // the maximal run "PUSHX" names no mnemonic, so it is a label token
    let mut lexer = Lexer::new("PUSHX");
    assert_eq!(lexer.lex(), Ok(1));
    assert!(matches!(lexer.tokens[0].tt, TokenType::Label(0, 5)));
}

#[test]
fn a_comment_may_run_to_the_end_of_the_source() {
    let mut lexer = Lexer::new("POP ; trailing words");
    assert_eq!(lexer.lex(), Ok(1));
    assert!(matches!(
        lexer.tokens[0].tt,
        TokenType::InstructionType(InstructionType::INST_POP)
    ));
}

#[test]
fn an_unterminated_string_runs_to_the_end_of_the_source() {
    let mut lexer = Lexer::new("\"abc");
    assert_eq!(lexer.lex(), Ok(1));
    match &lexer.tokens[0].tt {
        TokenType::StringLit(s) => assert_eq!(s, "abc"),
        other => panic!("expected a string token, got {:?}", other),
    }
}

#[test]
fn a_nul_ends_the_scan_and_hides_the_rest() {
    let mut lexer = Lexer::new("PUSH 7 \u{0} PUSH 9");
    assert_eq!(lexer.lex(), Ok(2));
}
