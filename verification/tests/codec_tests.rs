use proton::codec::{decode_instructions, encode_program, CodecError};
use proton::instruction::{
    Instruction, InstructionType, DEBUG, DEFINE_ADD, DEFINE_PUSH, DEFINE_PUSH_STR, DEFINE_SUB,
};
use proton::word::Word;

#[test]
fn round_trip_mixed_program() {
    let program = vec![
        DEFINE_PUSH(17),
        DEFINE_PUSH_STR("hi"),
        DEFINE_ADD(),
        DEFINE_SUB(),
        Instruction {
            tt: InstructionType::INST_PUSH,
            values: Some(vec![Word::I16(-5)]),
        },
        Instruction {
            tt: InstructionType::INST_PUSH,
            values: Some(vec![Word::F16(0x3C00)]),
        },
        DEBUG(),
    ];
    let bytes = encode_program(&program);
    let decoded = decode_instructions(&bytes).unwrap();
    assert_eq!(decoded, program);
}

#[test]
fn encoded_layout_is_opcode_count_tag_value() {
    let bytes = encode_program(&vec![DEFINE_PUSH(0x1234)]);
    assert_eq!(bytes, vec![1, 1, 0, 0x12, 0x34]);
}

#[test]
fn char_operand_encodes_big_endian() {
    let bytes = encode_program(&vec![DEFINE_PUSH_STR("A")]);
    assert_eq!(bytes, vec![17, 2, 0, 0, 1, 2, 0, 0x41]);
}

#[test]
fn empty_image_is_empty_program() {
    let decoded = decode_instructions(&Vec::new()).unwrap();
    assert!(decoded.is_empty());
}

#[test]
fn unknown_opcode_is_refused() {
    assert_eq!(
        decode_instructions(&vec![99, 0]),
        Err(CodecError::UnknownOpcode)
    );
}

#[test]
fn truncated_header_is_refused() {
    assert_eq!(
        decode_instructions(&vec![1]),
        Err(CodecError::UnexpectedEof)
    );
}

#[test]
fn truncated_operand_is_refused() {
    assert_eq!(
        decode_instructions(&vec![1, 1, 0, 0]),
        Err(CodecError::UnexpectedEof)
    );
}

#[test]
fn unknown_word_tag_is_refused() {
    assert_eq!(
        decode_instructions(&vec![1, 1, 9, 0, 0]),
        Err(CodecError::UnknownWordTag)
    );
}

#[test]
fn surrogate_char_operand_is_refused() {
    assert_eq!(
        decode_instructions(&vec![1, 1, 2, 0xD8, 0x00]),
        Err(CodecError::InvalidChar)
    );
}

#[test]
fn every_opcode_byte_round_trips() {
    for byte in 0u8..=34 {
        let tt = InstructionType::try_from(byte).unwrap();
        assert_eq!(tt.opcode(), byte);
    }
    assert!(InstructionType::try_from(35).is_err());
}
