//! The bytecode codec: each instruction serializes as an opcode byte, an
//! operand-count byte, and three bytes per operand (a tag byte and the value
//! in big-endian order). A program is the plain concatenation of its encoded
//! instructions; decoding is the inverse.

use vstd::prelude::*;
use crate::instruction::{Instruction, InstructionType};
use crate::word::Word;

verus! {

/// What can go wrong while decoding a bytecode image.
#[derive(Debug, Clone, Copy, PartialEq, Eq, Structural)]
pub enum CodecError {
    /// The opcode byte maps to no instruction.
    UnknownOpcode,
    /// An operand tag byte maps to no word kind.
    UnknownWordTag,
    /// A character operand does not hold a Unicode scalar value.
    InvalidChar,
    /// The image ends in the middle of an instruction.
    UnexpectedEof,
}

/// The mathematical content of an instruction: its opcode and operand list.
pub type InstModel = (InstructionType, Seq<Word>);

impl Instruction {
    /// The model of this instruction; `values: None` reads as no operands.
    pub open spec fn model(self) -> InstModel {
        (self.tt, self.args_spec())
    }

    /// The exec representation is canonical: no operands is `None`, never an
    /// empty vector.
    pub open spec fn canonical(self) -> bool {
        self.values matches Some(v) ==> v@.len() > 0
    }
}

/// The models of a whole program.
pub open spec fn program_models(is: Seq<Instruction>) -> Seq<InstModel> {
    is.map_values(|i: Instruction| i.model())
}

/// A model fits the wire format: at most 255 operands, each encodable.
pub open spec fn wf_model(m: InstModel) -> bool {
    &&& m.1.len() <= 255
    &&& forall|i: int| 0 <= i < m.1.len() ==> (#[trigger] m.1[i]).wf()
}

pub open spec fn wf_program_model(p: Seq<InstModel>) -> bool {
    forall|i: int| 0 <= i < p.len() ==> wf_model(#[trigger] p[i])
}

/// The tag byte of a word.
pub open spec fn word_tag_spec(w: Word) -> u8 {
    match w {
        Word::U16(_) => 0,
        Word::F16(_) => 1,
        Word::Char(_) => 2,
        Word::I16(_) => 3,
    }
}

/// The three bytes of one operand.
pub open spec fn encode_word_spec(w: Word) -> Seq<u8> {
    seq![word_tag_spec(w), (w.bits_spec() / 256) as u8, (w.bits_spec() % 256) as u8]
}

/// The operands of one instruction, in order.
pub open spec fn encode_words_spec(ws: Seq<Word>) -> Seq<u8>
    decreases ws.len(),
{
    if ws.len() == 0 {
        Seq::empty()
    } else {
        encode_word_spec(ws[0]) + encode_words_spec(ws.drop_first())
    }
}

/// One encoded instruction: opcode, operand count, operands.
pub open spec fn encode_instruction_spec(m: InstModel) -> Seq<u8> {
    seq![m.0.opcode_spec(), m.1.len() as u8] + encode_words_spec(m.1)
}

/// A whole encoded program.
pub open spec fn encode_program_spec(p: Seq<InstModel>) -> Seq<u8>
    decreases p.len(),
{
    if p.len() == 0 {
        Seq::empty()
    } else {
        encode_instruction_spec(p[0]) + encode_program_spec(p.drop_first())
    }
}

/// The character with the given code, if there is one.
pub open spec fn char_of_u16(v: u16) -> Option<char> {
    if exists|c: char| #[trigger] (c as u32) == v as u32 {
        Some(choose|c: char| #[trigger] (c as u32) == v as u32)
    } else {
        None
    }
}

/// Two characters with the same code are the same character.
proof fn lemma_char_injective(a: char, b: char)
    requires
        a as u32 == b as u32,
    ensures
        a == b,
{
}

/// The word a tag byte and a 16-bit payload decode to.
pub open spec fn word_of_spec(tag: u8, bits: u16) -> Result<Word, CodecError> {
    if tag == 0 {
        Ok(Word::U16(bits))
    } else if tag == 1 {
        Ok(Word::F16(bits))
    } else if tag == 2 {
        match char_of_u16(bits) {
            Some(c) => Ok(Word::Char(c)),
            None => Err(CodecError::InvalidChar),
        }
    } else if tag == 3 {
        Ok(Word::I16(bits as i16))
    } else {
        Err(CodecError::UnknownWordTag)
    }
}

/// Decode `n` operands from the front of `bytes` (three bytes each).
pub open spec fn decode_words_spec(bytes: Seq<u8>, n: nat) -> Result<Seq<Word>, CodecError>
    decreases n,
{
    if n == 0 {
        Ok(Seq::empty())
    } else {
        match word_of_spec(bytes[0], (bytes[1] * 256 + bytes[2]) as u16) {
            Ok(w) => match decode_words_spec(bytes.skip(3), (n - 1) as nat) {
                Ok(ws) => Ok(seq![w] + ws),
                Err(e) => Err(e),
            },
            Err(e) => Err(e),
        }
    }
}

/// Decode a whole image. The empty image is the empty program; anything else
/// must start with a known opcode and hold every byte the count announces.
pub open spec fn decode_program_spec(bytes: Seq<u8>) -> Result<Seq<InstModel>, CodecError>
    decreases bytes.len(),
{
    if bytes.len() == 0 {
        Ok(Seq::empty())
    } else if bytes.len() < 2 {
        Err(CodecError::UnexpectedEof)
    } else {
        match InstructionType::from_opcode_spec(bytes[0]) {
            Some(tt) => {
                let n = bytes[1] as int;
                if bytes.len() < 2 + 3 * n {
                    Err(CodecError::UnexpectedEof)
                } else {
                    match decode_words_spec(bytes.subrange(2, 2 + 3 * n), n as nat) {
                        Ok(ws) => match decode_program_spec(bytes.skip(2 + 3 * n)) {
                            Ok(rest) => Ok(seq![(tt, ws)] + rest),
                            Err(e) => Err(e),
                        },
                        Err(e) => Err(e),
                    }
                }
            },
            None => Err(CodecError::UnknownOpcode),
        }
    }
}

/// Encoded operands take exactly three bytes each.
pub proof fn lemma_encode_words_len(ws: Seq<Word>)
    ensures
        encode_words_spec(ws).len() == 3 * ws.len(),
    decreases ws.len(),
{
    if ws.len() > 0 {
        lemma_encode_words_len(ws.drop_first());
    }
}

/// A well-formed word comes back from its own three bytes.
proof fn lemma_word_round_trip(w: Word)
    requires
        w.wf(),
    ensures
        word_of_spec(word_tag_spec(w), (((w.bits_spec() / 256) as u8) * 256 + ((w.bits_spec() % 256) as u8)) as u16)
            == Ok::<Word, CodecError>(w),
{
    let bits = w.bits_spec();
    assert((((bits / 256) as u8) * 256 + ((bits % 256) as u8)) as u16 == bits);
    match w {
        Word::U16(_) => {},
        Word::F16(_) => {},
        Word::I16(x) => {
            assert((x as u16) as i16 == x) by (bit_vector);
        },
        Word::Char(c) => {
            assert(c as u32 == bits as u32);
            assert(exists|d: char| #[trigger] (d as u32) == bits as u32);
            let d = choose|d: char| #[trigger] (d as u32) == bits as u32;
            assert(d == c);
        },
    }
}

/// Well-formed operand lists come back from their own bytes.
proof fn lemma_words_round_trip(ws: Seq<Word>)
    requires
        forall|i: int| 0 <= i < ws.len() ==> (#[trigger] ws[i]).wf(),
    ensures
        decode_words_spec(encode_words_spec(ws), ws.len()) == Ok::<Seq<Word>, CodecError>(ws),
    decreases ws.len(),
{
    if ws.len() > 0 {
        let w = ws[0];
        let bytes = encode_words_spec(ws);
        let rest = encode_words_spec(ws.drop_first());
        lemma_encode_words_len(ws.drop_first());
        assert(bytes =~= encode_word_spec(w) + rest);
        lemma_word_round_trip(w);
        assert(bytes.skip(3) =~= rest);
        lemma_words_round_trip(ws.drop_first());
        assert(seq![w] + ws.drop_first() =~= ws);
    } else {
        assert(ws =~= Seq::<Word>::empty());
    }
}

/// Codec round trip: decoding the encoding of any well-formed program yields
/// exactly that program.
pub proof fn lemma_codec_round_trip(p: Seq<InstModel>)
    requires
        wf_program_model(p),
    ensures
        decode_program_spec(encode_program_spec(p)) == Ok::<Seq<InstModel>, CodecError>(p),
    decreases p.len(),
{
    if p.len() > 0 {
        let m = p[0];
        let bytes = encode_program_spec(p);
        let head = encode_instruction_spec(m);
        let tail = encode_program_spec(p.drop_first());
        let n = m.1.len() as int;
        lemma_encode_words_len(m.1);
        assert(head.len() == 2 + 3 * n);
        assert(bytes =~= head + tail);
        assert(bytes[0] == m.0.opcode_spec());
        crate::instruction::lemma_opcode_round_trip(m.0);
        assert(bytes[1] == n as u8);
        assert(bytes[1] as int == n);
        assert(bytes.subrange(2, 2 + 3 * n) =~= encode_words_spec(m.1));
        lemma_words_round_trip(m.1);
        assert(bytes.skip(2 + 3 * n) =~= tail);
        lemma_codec_round_trip(p.drop_first());
        assert(seq![(m.0, m.1)] + p.drop_first() =~= p);
        assert((m.0, m.1) == m);
    } else {
        assert(p =~= Seq::<InstModel>::empty());
    }
}

/// Appending one operand extends the encoding by that operand's bytes.
pub proof fn lemma_encode_words_snoc(ws: Seq<Word>, w: Word)
    ensures
        encode_words_spec(ws.push(w)) == encode_words_spec(ws) + encode_word_spec(w),
    decreases ws.len(),
{
    assert(ws.push(w).len() == ws.len() + 1);
    if ws.len() == 0 {
        assert(ws.push(w)[0] == w);
        assert(ws.push(w).drop_first() =~= Seq::<Word>::empty());
        assert(encode_words_spec(ws.push(w)) == encode_word_spec(ws.push(w)[0]) + encode_words_spec(ws.push(w).drop_first()));
        assert(encode_words_spec(ws.push(w).drop_first()) == Seq::<u8>::empty());
        assert(encode_words_spec(ws.push(w)) =~= encode_words_spec(ws) + encode_word_spec(w));
    } else {
        lemma_encode_words_snoc(ws.drop_first(), w);
        assert(ws.push(w)[0] == ws[0]);
        assert(ws.push(w).drop_first() =~= ws.drop_first().push(w));
        assert(encode_words_spec(ws.push(w)) =~= encode_words_spec(ws) + encode_word_spec(w));
    }
}

/// Appending one instruction extends the encoding by that instruction's bytes.
pub proof fn lemma_encode_program_snoc(p: Seq<InstModel>, m: InstModel)
    ensures
        encode_program_spec(p.push(m)) == encode_program_spec(p) + encode_instruction_spec(m),
    decreases p.len(),
{
    assert(p.push(m).len() == p.len() + 1);
    if p.len() == 0 {
        assert(p.push(m)[0] == m);
        assert(p.push(m).drop_first() =~= Seq::<InstModel>::empty());
        assert(encode_program_spec(p.push(m)) == encode_instruction_spec(p.push(m)[0]) + encode_program_spec(p.push(m).drop_first()));
        assert(encode_program_spec(p.push(m).drop_first()) == Seq::<u8>::empty());
        assert(encode_program_spec(p.push(m)) =~= encode_program_spec(p) + encode_instruction_spec(m));
    } else {
        lemma_encode_program_snoc(p.drop_first(), m);
        assert(p.push(m)[0] == p[0]);
        assert(p.push(m).drop_first() =~= p.drop_first().push(m));
        assert(encode_program_spec(p.push(m)) =~= encode_program_spec(p) + encode_instruction_spec(m));
    }
}

/// Relies on `char::from_u32` of std: it returns the character with the given
/// code exactly when the code is a Unicode scalar value (not a surrogate, not
/// above U+10FFFF).
pub assume_specification[ char::from_u32 ](v: u32) -> (r: Option<char>)
    ensures
        r matches Some(c) ==> c as u32 == v,
        (v < 0xD800 || (0xE000 <= v && v <= 0x10FFFF)) <==> r is Some,
;

impl Instruction {
    /// Serialize this instruction.
    pub fn to_bytes(&self) -> (r: Vec<u8>)
        ensures
            r@ == encode_instruction_spec(self.model()),
    {
        let mut buffer: Vec<u8> = Vec::new();
        buffer.push(self.tt.opcode());
        match &self.values {
            Some(value) => {
                buffer.push(#[verifier::truncate] (value.len() as u8));
            },
            None => {
                buffer.push(0);
            },
        }
        if let Some(values) = &self.values {
            let ghost args = values@;
            let mut i: usize = 0;
            while i < values.len()
                invariant
                    i <= values.len(),
                    values@ == args,
                    buffer@ == seq![self.tt.opcode_spec(), args.len() as u8] + encode_words_spec(args.take(i as int)),
                decreases values.len() - i,
            {
                let w = values[i];
                let bytes = w.to_be_bytes();
                let tag: u8 = match w {
                    Word::U16(_) => 0,
                    Word::F16(_) => 1,
                    Word::Char(_) => 2,
                    Word::I16(_) => 3,
                };
                buffer.push(tag);
                buffer.push(bytes[0]);
                buffer.push(bytes[1]);
                proof {
                    lemma_encode_words_snoc(args.take(i as int), args[i as int]);
                    assert(args.take(i as int).push(args[i as int]) =~= args.take(i + 1));
                    assert(buffer@ =~= seq![self.tt.opcode_spec(), args.len() as u8]
                        + encode_words_spec(args.take(i + 1)));
                }
                i = i + 1;
            }
            proof {
                assert(args.take(args.len() as int) =~= args);
                assert(buffer@ =~= encode_instruction_spec(self.model()));
            }
        } else {
            proof {
                assert(encode_words_spec(self.args_spec()) =~= Seq::<u8>::empty());
                assert(buffer@ =~= encode_instruction_spec(self.model()));
            }
        }
        buffer
    }
}

/// Serialize a whole program: the concatenation of its instructions.
pub fn encode_program(instructions: &Vec<Instruction>) -> (r: Vec<u8>)
    ensures
        r@ == encode_program_spec(program_models(instructions@)),
{
    let mut buffer: Vec<u8> = Vec::new();
    let mut i: usize = 0;
    while i < instructions.len()
        invariant
            i <= instructions.len(),
            buffer@ == encode_program_spec(program_models(instructions@.take(i as int))),
        decreases instructions.len() - i,
    {
        let mut bytes = instructions[i].to_bytes();
        buffer.append(&mut bytes);
        proof {
            lemma_encode_program_snoc(
                program_models(instructions@.take(i as int)),
                instructions@[i as int].model(),
            );
            assert(program_models(instructions@.take(i as int)).push(instructions@[i as int].model())
                =~= program_models(instructions@.take(i + 1)));
        }
        i = i + 1;
    }
    proof {
        assert(instructions@.take(instructions@.len() as int) =~= instructions@);
    }
    buffer
}

/// A partly decoded image reads as the instructions already decoded followed
/// by whatever the remaining bytes decode to.
pub open spec fn decode_continues(
    full: Seq<u8>,
    done: Seq<InstModel>,
    rest_bytes: Seq<u8>,
) -> bool {
    decode_program_spec(full) == match decode_program_spec(rest_bytes) {
        Ok(rest) => Ok::<Seq<InstModel>, CodecError>(done + rest),
        Err(e) => Err::<Seq<InstModel>, CodecError>(e),
    }
}

/// Decode `n` operands, three bytes each, starting at `start`.
fn decode_words(bytes: &Vec<u8>, start: usize, n: usize) -> (r: Result<Vec<Word>, CodecError>)
    requires
        start + 3 * n <= bytes@.len(),
    ensures
        match r {
            Ok(ws) => ws@.len() == n && decode_words_spec(
                bytes@.subrange(start as int, start + 3 * n),
                n as nat,
            ) == Ok::<Seq<Word>, CodecError>(ws@),
            Err(e) => decode_words_spec(
                bytes@.subrange(start as int, start + 3 * n),
                n as nat,
            ) == Err::<Seq<Word>, CodecError>(e),
        },
{
    let ghost sub = bytes@.subrange(start as int, start + 3 * n);
    let blen = bytes.len();
    let mut acc: Vec<Word> = Vec::new();
    let mut i: usize = 0;
    proof {
        assert(sub.skip(0) =~= sub);
        let t = decode_words_spec(sub, n as nat);
        if t is Ok {
            assert(Seq::<Word>::empty() + t->Ok_0 =~= t->Ok_0);
        }
    }
    while i < n
        invariant
            i <= n,
            blen == bytes@.len(),
            start + 3 * n <= blen,
            sub == bytes@.subrange(start as int, start + 3 * n),
            acc@.len() == i,
            decode_words_spec(sub, n as nat) == match decode_words_spec(
                sub.skip(3 * i),
                (n - i) as nat,
            ) {
                Ok(ws) => Ok::<Seq<Word>, CodecError>(acc@ + ws),
                Err(e) => Err::<Seq<Word>, CodecError>(e),
            },
        decreases n - i,
    {
        let tag = bytes[start + 3 * i];
        let hi = bytes[start + 3 * i + 1];
        let lo = bytes[start + 3 * i + 2];
        let bits: u16 = (hi as u16) * 256 + (lo as u16);
        proof {
            assert(sub.skip(3 * i)[0] == bytes@[start + 3 * i]);
            assert(sub.skip(3 * i)[1] == bytes@[start + 3 * i + 1]);
            assert(sub.skip(3 * i)[2] == bytes@[start + 3 * i + 2]);
        }
        let w: Word = if tag == 0 {
            Word::U16(bits)
        } else if tag == 1 {
            Word::F16(bits)
        } else if tag == 2 {
            match char::from_u32(bits as u32) {
                Some(c) => {
                    proof {
                        assert((c as u32) == bits as u32);
                        assert(exists|d: char| #[trigger] (d as u32) == bits as u32);
                        let d = choose|d: char| #[trigger] (d as u32) == bits as u32;
                        lemma_char_injective(d, c);
                        assert(char_of_u16(bits) == Some(c));
                    }
                    Word::Char(c)
                },
                None => {
                    proof {
                        if char_of_u16(bits) is Some {
                            let d = choose|d: char| #[trigger] (d as u32) == bits as u32;
                            assert(false);
                        }
                    }
                    return Err(CodecError::InvalidChar);
                },
            }
        } else if tag == 3 {
            Word::I16(#[verifier::truncate] (bits as i16))
        } else {
            return Err(CodecError::UnknownWordTag);
        };
        let ghost acc0 = acc@;
        acc.push(w);
        proof {
            let rem = sub.skip(3 * i);
            assert(word_of_spec(rem[0], (rem[1] * 256 + rem[2]) as u16) == Ok::<Word, CodecError>(w));
            assert(rem.skip(3) =~= sub.skip(3 * (i + 1)));
            let tail = decode_words_spec(sub.skip(3 * (i + 1)), (n - i - 1) as nat);
            assert(decode_words_spec(rem, (n - i) as nat) == match tail {
                Ok(ws) => Ok::<Seq<Word>, CodecError>(seq![w] + ws),
                Err(e) => Err::<Seq<Word>, CodecError>(e),
            });
            if tail is Ok {
                let ws = tail->Ok_0;
                assert((acc0 + (seq![w] + ws)) =~= (acc0.push(w) + ws));
            }
        }
        i = i + 1;
    }
    proof {
        assert(sub.skip(3 * n) =~= Seq::<u8>::empty());
        assert(acc@ + Seq::<Word>::empty() =~= acc@);
    }
    Ok(acc)
}

/// Decode a whole bytecode image back into instructions. The result is `Ok`
/// exactly when the image is a sequence of complete instructions with known
/// opcodes and operand tags; the error names the first flaw found.
pub fn decode_instructions(buffer: &Vec<u8>) -> (r: Result<Vec<Instruction>, CodecError>)
    ensures
        match r {
            Ok(is) => decode_program_spec(buffer@) == Ok::<Seq<InstModel>, CodecError>(
                program_models(is@),
            ) && forall|i: int| 0 <= i < is@.len() ==> (#[trigger] is@[i]).canonical(),
            Err(e) => decode_program_spec(buffer@) == Err::<Seq<InstModel>, CodecError>(e),
        },
{
    let mut acc: Vec<Instruction> = Vec::new();
    let mut pos: usize = 0;
    proof {
        assert(buffer@.skip(0) =~= buffer@);
        assert(program_models(acc@) =~= Seq::<InstModel>::empty());
        let t = decode_program_spec(buffer@);
        if t is Ok {
            assert(Seq::<InstModel>::empty() + t->Ok_0 =~= t->Ok_0);
        }
    }
    while pos < buffer.len()
        invariant
            pos <= buffer@.len(),
            decode_continues(buffer@, program_models(acc@), buffer@.skip(pos as int)),
            forall|i: int| 0 <= i < acc@.len() ==> (#[trigger] acc@[i]).canonical(),
        decreases buffer@.len() - pos,
    {
        let ghost rest = buffer@.skip(pos as int);
        proof {
            assert(rest.len() == buffer@.len() - pos);
        }
        if buffer.len() - pos < 2 {
            proof {
                assert(decode_program_spec(rest) == Err::<Seq<InstModel>, CodecError>(
                    CodecError::UnexpectedEof,
                ));
            }
            return Err(CodecError::UnexpectedEof);
        }
        let opcode = buffer[pos];
        let count = buffer[pos + 1];
        proof {
            assert(rest[0] == buffer@[pos as int]);
            assert(rest[1] == buffer@[pos as int + 1]);
        }
        let tt = match InstructionType::try_from(opcode) {
            Ok(tt) => tt,
            Err(()) => {
                return Err(CodecError::UnknownOpcode);
            },
        };
        let need: usize = 3 * (count as usize);
        if buffer.len() - (pos + 2) < need {
            return Err(CodecError::UnexpectedEof);
        }
        let words = match decode_words(buffer, pos + 2, count as usize) {
            Ok(ws) => ws,
            Err(e) => {
                proof {
                    assert(rest.subrange(2, 2 + 3 * (count as int)) =~= buffer@.subrange(
                        pos + 2,
                        pos + 2 + 3 * (count as int),
                    ));
                }
                return Err(e);
            },
        };
        let inst = Instruction {
            tt,
            values: if count == 0 {
                None
            } else {
                Some(words)
            },
        };
        proof {
            assert(rest.subrange(2, 2 + 3 * (count as int)) =~= buffer@.subrange(
                pos + 2,
                pos + 2 + 3 * (count as int),
            ));
            assert(rest.skip(2 + 3 * (count as int)) =~= buffer@.skip(
                pos + 2 + 3 * (count as int),
            ));
            if count == 0 {
                assert(inst.model().1 =~= decode_words_spec(
                    rest.subrange(2, 2 + 3 * (count as int)),
                    count as nat,
                )->Ok_0);
            }
            let m = inst.model();
            assert(program_models(acc@.push(inst)) =~= program_models(acc@).push(m));
            let tail = decode_program_spec(rest.skip(2 + 3 * (count as int)));
            if tail is Ok {
                assert((program_models(acc@) + (seq![m] + tail->Ok_0)) =~= (program_models(
                    acc@.push(inst),
                ) + tail->Ok_0));
            }
        }
        acc.push(inst);
        pos = pos + 2 + need;
    }
    proof {
        assert(buffer@.skip(pos as int) =~= Seq::<u8>::empty());
        assert(decode_program_spec(Seq::<u8>::empty()) == Ok::<Seq<InstModel>, CodecError>(
            Seq::empty(),
        ));
        assert(program_models(acc@) + Seq::<InstModel>::empty() =~= program_models(acc@));
    }
    Ok(acc)
}

/// Names the file that holds a bytecode image; the byte-level work itself is
/// done by `encode_program` and `decode_instructions`, and the reading and
/// writing of the named file belongs to the callers.
#[derive(Debug)]
pub struct ByteCodeCompiler {
    pub file_name: String,
}

impl ByteCodeCompiler {
    pub fn new(file_name: &str) -> (r: Self)
        ensures
            r.file_name@ == file_name@,
    {
        ByteCodeCompiler { file_name: file_name.to_owned() }
    }
}

} // verus!
