//! The parser: tokens to an abstract syntax tree of instructions and
//! labels. Each mnemonic consumes exactly the operand count its opcode
//! declares; a label binds the instructions that follow it.

use vstd::prelude::*;
use crate::instruction::InstructionType;
use crate::lexer::{string_from_chars, NumberType, Token, TokenType};

verus! {

/// What can stop the parser.
#[derive(Debug, Clone, Copy, PartialEq, Eq, Structural)]
pub enum ParserError {
    /// The tokens end in the middle of an instruction.
    UnexpectedEOF,
    /// A token that cannot begin a statement, or an empty label name.
    UnexpectedToken,
    /// An operand token of a kind the instruction does not take.
    InvalidInstructionFormat,
}

/// A node of the syntax tree.
#[derive(Debug)]
pub enum ASTNode {
    /// An instruction with its operand nodes.
    Instruction(InstructionType, Vec<ASTNode>),
    /// A name to resolve: a label's address or a constant-pool slot.
    Variable(String),
    /// A label and the instructions bound under it.
    Label(String, Vec<ASTNode>),
    /// A number literal.
    Number(NumberType),
    /// A string literal.
    StringLiteral(String),
}

/// A node allowed as an instruction operand.
pub open spec fn leaf_wf(n: ASTNode) -> bool {
    match n {
        ASTNode::Number(_) => true,
        ASTNode::Variable(s) => s@.len() > 0,
        ASTNode::StringLiteral(_) => true,
        _ => false,
    }
}

/// An instruction node with exactly its declared operand count, all of
/// them leaves.
pub open spec fn inst_wf(n: ASTNode) -> bool {
    &&& n matches ASTNode::Instruction(tt, args)
    &&& n->Instruction_1@.len() == n->Instruction_0.arity_spec()
    &&& forall|i: int|
        0 <= i < n->Instruction_1@.len() ==> leaf_wf(#[trigger] n->Instruction_1@[i])
}

/// A node the parser may emit at the top level: an instruction, or a named
/// label over instructions.
pub open spec fn top_wf(n: ASTNode) -> bool {
    ||| inst_wf(n)
    ||| {
        &&& n matches ASTNode::Label(name, body)
        &&& n->Label_0@.len() > 0
        &&& forall|i: int| 0 <= i < n->Label_1@.len() ==> inst_wf(#[trigger] n->Label_1@[i])
    }
}

/// The leaf node an operand token converts to: a number token keeps its
/// value, a label token names the variable written at its source range,
/// a string token keeps its text.
pub open spec fn leaf_matches(n: ASTNode, t: TokenType, src: Seq<char>) -> bool {
    match t {
        TokenType::Number(num) => n == ASTNode::Number(num),
        TokenType::Label(s, e) => (s as int) < (e as int) <= src.len() && (n matches
            ASTNode::Variable(nm) && nm@ == src.subrange(s as int, e as int)),
        TokenType::StringLit(sv) => n matches ASTNode::StringLiteral(x) && x@ == sv@,
        _ => false,
    }
}

/// Whether a token may stand as an instruction operand, or the error its
/// kind raises: a mnemonic or punctuation token is of the wrong kind, and
/// a label token whose range is empty or out of the source is malformed.
pub open spec fn operand_class(t: TokenType, src: Seq<char>) -> Result<(), ParserError> {
    match t {
        TokenType::Number(_) => Ok(()),
        TokenType::StringLit(_) => Ok(()),
        TokenType::Label(s, e) => if (s as int) < (e as int) <= src.len() {
            Ok(())
        } else {
            Err(ParserError::UnexpectedToken)
        },
        _ => Err(ParserError::InvalidInstructionFormat),
    }
}

/// An instruction statement fills `[a, b)`: a mnemonic token and exactly
/// the operand tokens its opcode declares, each converted in order into
/// the node's argument list.
pub open spec fn inst_node_at(
    n: ASTNode,
    toks: Seq<Token>,
    src: Seq<char>,
    a: int,
    b: int,
) -> bool {
    &&& 0 <= a < toks.len()
    &&& toks[a].tt matches TokenType::InstructionType(tt)
    &&& b == a + 1 + toks[a].tt->InstructionType_0.arity_spec()
    &&& b <= toks.len()
    &&& n matches ASTNode::Instruction(it, args)
    &&& n->Instruction_0 == toks[a].tt->InstructionType_0
    &&& n->Instruction_1@.len() == toks[a].tt->InstructionType_0.arity_spec()
    &&& forall|j: int|
        0 <= j < n->Instruction_1@.len() ==> leaf_matches(
            #[trigger] n->Instruction_1@[j],
            toks[a + 1 + j].tt,
            src,
        )
}

/// An instruction statement beginning at `q` fails with `e`: its first `j`
/// operand tokens convert, and then either the stream ends or a token of
/// the wrong kind stands where an operand is owed.
pub open spec fn inst_fail_at(toks: Seq<Token>, src: Seq<char>, q: int, e: ParserError) -> bool {
    &&& 0 <= q < toks.len()
    &&& toks[q].tt is InstructionType
    &&& exists|j: int|
        #![trigger toks[q + 1 + j]]
        {
            let k = toks[q].tt->InstructionType_0.arity_spec() as int;
            &&& 0 <= j < k
            &&& q + 1 + j <= toks.len()
            &&& (forall|m: int|
                0 <= m < j ==> operand_class(#[trigger] toks[q + 1 + m].tt, src) is Ok)
            &&& (if q + 1 + j == toks.len() {
                e == ParserError::UnexpectedEOF
            } else {
                operand_class(toks[q + 1 + j].tt, src) == Err::<(), ParserError>(e)
            })
        }
}

/// The bounds of consecutive instruction statements filling `[c, b)`,
/// converted in order to the given nodes.
pub open spec fn inst_bounds_ok(
    body: Seq<ASTNode>,
    toks: Seq<Token>,
    src: Seq<char>,
    ib: Seq<int>,
    c: int,
    b: int,
) -> bool {
    &&& ib.len() == body.len() + 1
    &&& ib[0] == c
    &&& ib[body.len() as int] == b
    &&& forall|j: int|
        0 <= j < body.len() ==> inst_node_at(#[trigger] body[j], toks, src, ib[j], ib[j + 1])
}

/// Consecutive instruction statements fill `[c, b)` and convert, in order,
/// to the given nodes.
pub open spec fn insts_match(
    body: Seq<ASTNode>,
    toks: Seq<Token>,
    src: Seq<char>,
    c: int,
    b: int,
) -> bool {
    exists|ib: Seq<int>| #[trigger] inst_bounds_ok(body, toks, src, ib, c, b)
}

/// Where a label statement's body begins: past the label token and the
/// optional colon after it.
pub open spec fn label_body_start(toks: Seq<Token>, a: int) -> int {
    if a + 1 < toks.len() && toks[a + 1].tt is Colon {
        a + 2
    } else {
        a + 1
    }
}

/// A label statement fills `[a, b)`: a label token naming a nonempty
/// source range, an optional colon, and then every following instruction
/// statement, bound as the node's body until the next token that begins
/// none.
pub open spec fn label_node_at(
    n: ASTNode,
    toks: Seq<Token>,
    src: Seq<char>,
    a: int,
    b: int,
) -> bool {
    &&& 0 <= a < toks.len()
    &&& toks[a].tt matches TokenType::Label(s, e)
    &&& (toks[a].tt->Label_0 as int) < (toks[a].tt->Label_1 as int) <= src.len()
    &&& n matches ASTNode::Label(nm, body)
    &&& n->Label_0@ == src.subrange(toks[a].tt->Label_0 as int, toks[a].tt->Label_1 as int)
    &&& insts_match(n->Label_1@, toks, src, label_body_start(toks, a), b)
    &&& (b == toks.len() || !(toks[b].tt is InstructionType))
}

/// A top-level statement fills `[a, b)`.
pub open spec fn top_node_at(n: ASTNode, toks: Seq<Token>, src: Seq<char>, a: int, b: int) -> bool {
    ||| inst_node_at(n, toks, src, a, b)
    ||| label_node_at(n, toks, src, a, b)
}

/// The nodes are the token stream's statements in order, covering `[0, p)`
/// at the given statement bounds.
pub open spec fn bounds_to(
    ns: Seq<ASTNode>,
    toks: Seq<Token>,
    src: Seq<char>,
    bounds: Seq<int>,
    p: int,
) -> bool {
    &&& bounds.len() == ns.len() + 1
    &&& bounds[0] == 0
    &&& bounds[ns.len() as int] == p
    &&& forall|i: int|
        0 <= i < ns.len() ==> top_node_at(#[trigger] ns[i], toks, src, bounds[i], bounds[i + 1])
}

/// The node list is exactly the token stream's statements, in order,
/// covering it whole.
pub open spec fn parsed(ns: Seq<ASTNode>, toks: Seq<Token>, src: Seq<char>) -> bool {
    exists|bounds: Seq<int>| #[trigger] bounds_to(ns, toks, src, bounds, toks.len() as int)
}

/// The statement head at `p` fails with `e`: a failing instruction
/// statement, a malformed label token, a token that begins no statement,
/// or, past a well-formed label head, a failing instruction statement of
/// its body.
pub open spec fn head_fail_at(toks: Seq<Token>, src: Seq<char>, p: int, e: ParserError) -> bool {
    &&& 0 <= p < toks.len()
    &&& match toks[p].tt {
        TokenType::InstructionType(_) => inst_fail_at(toks, src, p, e),
        TokenType::Label(s, e2) => if !((s as int) < (e2 as int) <= src.len()) {
            e == ParserError::UnexpectedToken
        } else {
            exists|q: int|
                label_body_start(toks, p) <= q && #[trigger] inst_fail_at(toks, src, q, e)
        },
        _ => e == ParserError::UnexpectedToken,
    }
}

/// The scan read complete statements and then stopped at one that fails
/// with `e`: errors come only under these conditions.
pub open spec fn parse_stopped(toks: Seq<Token>, src: Seq<char>, e: ParserError) -> bool {
    exists|ns0: Seq<ASTNode>, bounds: Seq<int>, p: int|
        #[trigger] bounds_to(ns0, toks, src, bounds, p) && head_fail_at(toks, src, p, e)
}

/// Recording one more statement keeps the bounds valid.
proof fn lemma_bounds_push(
    ns: Seq<ASTNode>,
    toks: Seq<Token>,
    src: Seq<char>,
    bounds: Seq<int>,
    n: ASTNode,
    p: int,
    q: int,
)
    requires
        bounds_to(ns, toks, src, bounds, p),
        top_node_at(n, toks, src, p, q),
    ensures
        bounds_to(ns.push(n), toks, src, bounds.push(q), q),
{
    let ns2 = ns.push(n);
    let b2 = bounds.push(q);
    assert forall|i: int| 0 <= i < ns2.len() implies top_node_at(
        #[trigger] ns2[i],
        toks,
        src,
        b2[i],
        b2[i + 1],
    ) by {
        if i < ns.len() {
            assert(ns2[i] == ns[i]);
            assert(b2[i] == bounds[i]);
            assert(b2[i + 1] == bounds[i + 1]);
        } else {
            assert(ns2[i] == n);
            assert(b2[i] == bounds[ns.len() as int]);
            assert(b2[i + 1] == q);
        }
    }
}

/// Recording one more instruction statement keeps a body's bounds valid.
proof fn lemma_ib_push(
    body: Seq<ASTNode>,
    toks: Seq<Token>,
    src: Seq<char>,
    ib: Seq<int>,
    n: ASTNode,
    c: int,
    q: int,
    q2: int,
)
    requires
        inst_bounds_ok(body, toks, src, ib, c, q),
        inst_node_at(n, toks, src, q, q2),
    ensures
        inst_bounds_ok(body.push(n), toks, src, ib.push(q2), c, q2),
{
    let body2 = body.push(n);
    let ib2 = ib.push(q2);
    assert forall|j: int| 0 <= j < body2.len() implies inst_node_at(
        #[trigger] body2[j],
        toks,
        src,
        ib2[j],
        ib2[j + 1],
    ) by {
        if j < body.len() {
            assert(body2[j] == body[j]);
            assert(ib2[j] == ib[j]);
            assert(ib2[j + 1] == ib[j + 1]);
        } else {
            assert(body2[j] == n);
            assert(ib2[j] == ib[body.len() as int]);
            assert(ib2[j + 1] == q2);
        }
    }
}

/// The parser over one token stream.
pub struct Parser {
    /// The tokens to parse.
    pub tokens: Vec<Token>,
    /// The next unread token.
    pub current_index: usize,
    /// The source, for reading label names back out of it.
    pub source_code: Vec<char>,
}

impl Parser {
    /// A parser over the given source text; the tokens come to `parse`.
    pub fn new(source_code: &str) -> (r: Self)
        ensures
            r.source_code@ == source_code@,
            r.tokens@.len() == 0,
            r.current_index == 0,
    {
        Parser {
            tokens: Vec::new(),
            current_index: 0,
            source_code: crate::lexer::str_chars(source_code),
        }
    }

    /// The label name written at the given character range, if nonempty.
    fn extract_label_name(&self, start: usize, end: usize) -> (r: Option<String>)
        requires
            start <= end <= self.source_code@.len(),
        ensures
            match r {
                Some(nm) => nm@ == self.source_code@.subrange(start as int, end as int)
                    && nm@.len() > 0,
                None => start == end,
            },
    {
        if start == end {
            return None;
        }
        let mut name: Vec<char> = Vec::new();
        let mut i = start;
        proof {
            assert(self.source_code@.subrange(start as int, start as int) =~= Seq::<
                char,
            >::empty());
        }
        while i < end
            invariant
                start <= i <= end,
                end <= self.source_code@.len(),
                name@ == self.source_code@.subrange(start as int, i as int),
            decreases end - i,
        {
            let ch = self.source_code[i];
            name.push(ch);
            i = i + 1;
            proof {
                assert(name@ =~= self.source_code@.subrange(start as int, i as int));
            }
        }
        Some(string_from_chars(&name))
    }

    /// Parse one instruction statement: a mnemonic and exactly as many
    /// operand tokens as its opcode declares, converted in order. On a
    /// mnemonic with its declared operands present and well formed the
    /// statement is owed; it fails only at a missing or wrong-kind operand,
    /// or on a head that is no mnemonic at all.
    fn parse_instruction(&mut self) -> (r: Result<ASTNode, ParserError>)
        requires
            old(self).current_index < old(self).tokens@.len(),
        ensures
            final(self).tokens == old(self).tokens,
            final(self).source_code == old(self).source_code,
            final(self).current_index <= final(self).tokens@.len(),
            r is Ok ==> inst_wf(r->Ok_0) && final(self).current_index > old(self).current_index,
            ({
                let toks = old(self).tokens@;
                let src = old(self).source_code@;
                let a = old(self).current_index as int;
                match toks[a].tt {
                    TokenType::InstructionType(tt) => match r {
                        Ok(node) => inst_node_at(
                            node,
                            toks,
                            src,
                            a,
                            a + 1 + tt.arity_spec(),
                        ) && final(self).current_index == a + 1 + tt.arity_spec(),
                        Err(e) => inst_fail_at(toks, src, a, e),
                    },
                    _ => r == Err::<ASTNode, ParserError>(ParserError::UnexpectedToken),
                }
            }),
    {
        let tlen = self.tokens.len();
        let ghost toks = self.tokens@;
        let ghost src = self.source_code@;
        let ghost a = self.current_index as int;
        let tt = match &self.tokens[self.current_index].tt {
            TokenType::InstructionType(tt) => *tt,
            _ => {
                return Err(ParserError::UnexpectedToken);
            },
        };
        self.current_index = self.current_index + 1;
        let expected = tt.arity();
        let mut args: Vec<ASTNode> = Vec::new();
        let mut k: usize = 0;
        while k < expected
            invariant
                k <= expected,
                self.tokens == old(self).tokens,
                self.source_code == old(self).source_code,
                toks == old(self).tokens@,
                src == old(self).source_code@,
                a == old(self).current_index,
                a < toks.len(),
                toks[a].tt matches TokenType::InstructionType(t0) && t0 == tt,
                expected == tt.arity_spec(),
                self.current_index as int == a + 1 + k,
                self.current_index <= self.tokens@.len(),
                args@.len() == k,
                forall|i: int| 0 <= i < k ==> leaf_wf(#[trigger] args@[i]),
                forall|i: int|
                    0 <= i < k ==> leaf_matches(#[trigger] args@[i], toks[a + 1 + i].tt, src),
                forall|m: int| 0 <= m < k ==> operand_class(#[trigger] toks[a + 1 + m].tt, src) is Ok,
            decreases expected - k,
        {
            let ghost j = k as int;
            if self.current_index >= self.tokens.len() {
                proof {
                    assert(a + 1 + j == toks.len());
                    assert(inst_fail_at(toks, src, a, ParserError::UnexpectedEOF));
                }
                return Err(ParserError::UnexpectedEOF);
            }
            match &self.tokens[self.current_index].tt {
                TokenType::Number(num) => {
                    let num = *num;
                    args.push(ASTNode::Number(num));
                    self.current_index = self.current_index + 1;
                },
                TokenType::Label(start, end) => {
                    let start = *start;
                    let end = *end;
                    if !(start <= end && end <= self.source_code.len()) {
                        proof {
                            assert(operand_class(toks[a + 1 + j].tt, src) == Err::<
                                (),
                                ParserError,
                            >(ParserError::UnexpectedToken));
                            assert(inst_fail_at(toks, src, a, ParserError::UnexpectedToken));
                        }
                        return Err(ParserError::UnexpectedToken);
                    }
                    match self.extract_label_name(start, end) {
                        Some(nm) => {
                            args.push(ASTNode::Variable(nm));
                            self.current_index = self.current_index + 1;
                        },
                        None => {
                            proof {
                                assert(operand_class(toks[a + 1 + j].tt, src) == Err::<
                                    (),
                                    ParserError,
                                >(ParserError::UnexpectedToken));
                                assert(inst_fail_at(toks, src, a, ParserError::UnexpectedToken));
                            }
                            return Err(ParserError::UnexpectedToken);
                        },
                    }
                },
                TokenType::StringLit(sv) => {
                    let sv = sv.clone();
                    args.push(ASTNode::StringLiteral(sv));
                    self.current_index = self.current_index + 1;
                },
                _ => {
                    proof {
                        assert(operand_class(toks[a + 1 + j].tt, src) == Err::<(), ParserError>(
                            ParserError::InvalidInstructionFormat,
                        ));
                        assert(inst_fail_at(toks, src, a, ParserError::InvalidInstructionFormat));
                    }
                    return Err(ParserError::InvalidInstructionFormat);
                },
            }
            k = k + 1;
        }
        let node = ASTNode::Instruction(tt, args);
        proof {
            assert(inst_node_at(node, toks, src, a, a + 1 + tt.arity_spec()));
        }
        Ok(node)
    }

    /// Parse the whole token stream. Every returned node is an instruction
    /// with its declared operands, or a named label over such instructions;
    /// the node list is exactly the token stream's statements in order (see
    /// `parsed`), and an error comes only at a statement that fails as
    /// `parse_stopped` names.
    pub fn parse(&mut self, tokens: Vec<Token>) -> (r: Result<Vec<ASTNode>, ParserError>)
        ensures
            final(self).source_code@ == old(self).source_code@,
            match r {
                Ok(ns) => (forall|i: int| 0 <= i < ns@.len() ==> top_wf(#[trigger] ns@[i])) && (
                tokens@.len() > 0 ==> ns@.len() > 0) && parsed(
                    ns@,
                    tokens@,
                    old(self).source_code@,
                ),
                Err(e) => parse_stopped(tokens@, old(self).source_code@, e),
            },
    {
        self.tokens = tokens;
        self.current_index = 0;
        let ghost n0 = self.tokens@.len();
        let ghost toks = self.tokens@;
        let ghost src = self.source_code@;
        let mut nodes: Vec<ASTNode> = Vec::new();
        let ghost mut bounds: Seq<int> = seq![0];
        while self.current_index < self.tokens.len()
            invariant
                self.current_index <= self.tokens@.len(),
                self.tokens@ == toks,
                toks == tokens@,
                toks.len() == n0,
                self.source_code@ == src,
                src == old(self).source_code@,
                forall|i: int| 0 <= i < nodes@.len() ==> top_wf(#[trigger] nodes@[i]),
                self.current_index > 0 ==> nodes@.len() > 0,
                bounds_to(nodes@, toks, src, bounds, self.current_index as int),
            decreases self.tokens@.len() - self.current_index,
        {
            let ghost p = self.current_index as int;
            let (is_inst, is_label) = match &self.tokens[self.current_index].tt {
                TokenType::InstructionType(_) => (true, false),
                TokenType::Label(_, _) => (false, true),
                _ => (false, false),
            };
            if is_inst {
                match self.parse_instruction() {
                    Ok(node) => {
                        proof {
                            lemma_bounds_push(
                                nodes@,
                                toks,
                                src,
                                bounds,
                                node,
                                p,
                                self.current_index as int,
                            );
                            bounds = bounds.push(self.current_index as int);
                        }
                        nodes.push(node);
                    },
                    Err(e) => {
                        proof {
                            assert(head_fail_at(toks, src, p, e));
                            assert(parse_stopped(toks, src, e));
                        }
                        return Err(e);
                    },
                }
            } else if is_label {
                let (start, end) = match &self.tokens[self.current_index].tt {
                    TokenType::Label(start, end) => (*start, *end),
                    _ => {
                        proof {
                            assert(false);
                        }
                        (0, 0)
                    },
                };
                if !(start <= end && end <= self.source_code.len()) {
                    proof {
                        assert(head_fail_at(toks, src, p, ParserError::UnexpectedToken));
                        assert(parse_stopped(toks, src, ParserError::UnexpectedToken));
                    }
                    return Err(ParserError::UnexpectedToken);
                }
                let name = match self.extract_label_name(start, end) {
                    Some(nm) => nm,
                    None => {
                        proof {
                            assert(head_fail_at(toks, src, p, ParserError::UnexpectedToken));
                            assert(parse_stopped(toks, src, ParserError::UnexpectedToken));
                        }
                        return Err(ParserError::UnexpectedToken);
                    },
                };
                self.current_index = self.current_index + 1;
                if self.current_index < self.tokens.len() && matches!(
                    self.tokens[self.current_index].tt,
                    TokenType::Colon,
                ) {
                    self.current_index = self.current_index + 1;
                }
                proof {
                    assert(self.current_index as int == label_body_start(toks, p));
                }
                let mut body: Vec<ASTNode> = Vec::new();
                let ghost ppos = self.current_index as int;
                let ghost mut ib: Seq<int> = seq![ppos];
                while self.current_index < self.tokens.len() && matches!(
                    self.tokens[self.current_index].tt,
                    TokenType::InstructionType(_),
                )
                    invariant
                        ppos <= self.current_index <= self.tokens@.len(),
                        self.tokens@ == toks,
                        toks == tokens@,
                        self.source_code@ == src,
                        src == old(self).source_code@,
                        ppos == label_body_start(toks, p),
                        0 <= p < toks.len(),
                        forall|i: int| 0 <= i < body@.len() ==> inst_wf(#[trigger] body@[i]),
                        inst_bounds_ok(body@, toks, src, ib, ppos, self.current_index as int),
                        bounds_to(nodes@, toks, src, bounds, p),
                        toks[p].tt matches TokenType::Label(s0, e0) && (s0 as int) < (e0 as int)
                            <= src.len(),
                    decreases self.tokens@.len() - self.current_index,
                {
                    let ghost q = self.current_index as int;
                    match self.parse_instruction() {
                        Ok(node) => {
                            proof {
                                lemma_ib_push(
                                    body@,
                                    toks,
                                    src,
                                    ib,
                                    node,
                                    ppos,
                                    q,
                                    self.current_index as int,
                                );
                                ib = ib.push(self.current_index as int);
                            }
                            body.push(node);
                        },
                        Err(e) => {
                            proof {
                                assert(inst_fail_at(toks, src, q, e));
                                assert(head_fail_at(toks, src, p, e));
                                assert(parse_stopped(toks, src, e));
                            }
                            return Err(e);
                        },
                    }
                }
                let node = ASTNode::Label(name, body);
                proof {
                    assert(insts_match(node->Label_1@, toks, src, ppos, self.current_index as int));
                    assert(label_node_at(node, toks, src, p, self.current_index as int));
                    lemma_bounds_push(
                        nodes@,
                        toks,
                        src,
                        bounds,
                        node,
                        p,
                        self.current_index as int,
                    );
                    bounds = bounds.push(self.current_index as int);
                }
                nodes.push(node);
            } else {
                proof {
                    assert(head_fail_at(toks, src, p, ParserError::UnexpectedToken));
                    assert(parse_stopped(toks, src, ParserError::UnexpectedToken));
                }
                return Err(ParserError::UnexpectedToken);
            }
        }
        proof {
            assert(parsed(nodes@, toks, src));
        }
        Ok(nodes)
    }
}

} // verus!
