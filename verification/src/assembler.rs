//! The assembly pipeline from source text to instructions: lex, parse,
//! check, compile. Reading source files and writing bytecode images belong
//! to the callers.

use vstd::prelude::*;
use crate::compiler::{
    distinct_labels, flat_count, flat_ops, has_main_label, tree_var_count, Compiler,
    CompilerError,
};
use crate::instruction::{Instruction, InstructionType};
use crate::lexer::{lexed, stopped_at_bad_number, Lexer, LexerError, Token};
use crate::parser::{parse_stopped, parsed, ASTNode, Parser, ParserError};
use crate::word::Word;

verus! {

/// What can stop the pipeline, stage by stage.
#[derive(Debug, Clone, Copy, PartialEq, Eq, Structural)]
pub enum AsmError {
    /// The lexer stopped.
    Lex(LexerError),
    /// The parser stopped.
    Parse(ParserError),
    /// The compiler stopped.
    Compile(CompilerError),
    /// Two labels share a name.
    DuplicateLabel,
    /// The program emits more instructions than a 16-bit counter can index.
    ProgramTooLarge,
}

/// Whether any two labels share a name.
fn check_distinct_labels(nodes: &Vec<ASTNode>) -> (r: bool)
    ensures
        r == distinct_labels(nodes@),
{
    let mut i: usize = 0;
    while i < nodes.len()
        invariant
            i <= nodes@.len(),
            forall|a: int, b: int|
                (0 <= a < b < nodes@.len() && a < i && (#[trigger] nodes@[a]) is Label && (
                #[trigger] nodes@[b]) is Label) ==> nodes@[a]->Label_0@ != nodes@[b]->Label_0@,
        decreases nodes@.len() - i,
    {
        match &nodes[i] {
            ASTNode::Label(name, _) => {
                let mut j: usize = i + 1;
                while j < nodes.len()
                    invariant
                        i < j <= nodes@.len(),
                        i < nodes@.len(),
                        nodes@[i as int] is Label,
                        nodes@[i as int]->Label_0@ == name@,
                        forall|b: int|
                            (i < b < j && (#[trigger] nodes@[b]) is Label) ==> name@
                                != nodes@[b]->Label_0@,
                    decreases nodes@.len() - j,
                {
                    match &nodes[j] {
                        ASTNode::Label(other, _) => {
                            if name.eq(other) {
                                return false;
                            }
                        },
                        _ => {},
                    }
                    j = j + 1;
                }
            },
            _ => {},
        }
        i = i + 1;
    }
    true
}

/// The number of instructions the nodes emit, or none when it passes what
/// a 16-bit program counter can address.
fn count_emitted(nodes: &Vec<ASTNode>) -> (r: Option<usize>)
    ensures
        match r {
            Some(n) => n == flat_count(nodes@, nodes@.len() as int) && n <= 65534,
            None => flat_count(nodes@, nodes@.len() as int) > 65534,
        },
{
    let mut total: usize = 0;
    let mut k: usize = 0;
    while k < nodes.len()
        invariant
            k <= nodes@.len(),
            total == flat_count(nodes@, k as int),
            total <= 65534,
        decreases nodes@.len() - k,
    {
        let w: usize = match &nodes[k] {
            ASTNode::Instruction(_, _) => 1,
            ASTNode::Label(_, body) => body.len(),
            _ => 0,
        };
        if 65534 - total < w {
            proof {
                lemma_flat_count_from(nodes@, k + 1, nodes@.len() as int);
            }
            return None;
        }
        total = total + w;
        k = k + 1;
    }
    Some(total)
}

/// The count over a longer prefix is at least the count so far.
proof fn lemma_flat_count_from(nodes: Seq<ASTNode>, a: int, b: int)
    requires
        0 <= a <= b,
    ensures
        flat_count(nodes, b) >= flat_count(nodes, a),
    decreases b - a,
{
    if a < b {
        lemma_flat_count_from(nodes, a, b - 1);
        lemma_node_weight_nonneg(nodes, b - 1);
    }
}

proof fn lemma_node_weight_nonneg(nodes: Seq<ASTNode>, k: int)
    ensures
        crate::compiler::node_weight(nodes[k]) >= 0,
{
}

/// The stages a successful assembly runs through: the source scans to the
/// tokens, the tokens parse to the statements, the labels are distinct and
/// the emitted count fits a 16-bit counter, and the statements compile to
/// the instructions in order — the call to `main` prepended when that label
/// exists, aimed at its post-prepend index.
pub open spec fn pipeline_ok(
    src: Seq<char>,
    toks: Seq<Token>,
    ns: Seq<ASTNode>,
    out: Seq<Instruction>,
) -> bool {
    let shift = if has_main_label(ns) {
        1int
    } else {
        0int
    };
    &&& lexed(src, toks)
    &&& toks.len() > 0
    &&& parsed(ns, toks, src)
    &&& distinct_labels(ns)
    &&& flat_count(ns, ns.len() as int) <= 65534
    &&& out.len() == flat_count(ns, ns.len() as int) + shift
    &&& out.map_values(|q: Instruction| q.tt) == (if has_main_label(ns) {
        seq![InstructionType::INST_CALL] + flat_ops(ns, ns.len() as int)
    } else {
        flat_ops(ns, ns.len() as int)
    })
    &&& (has_main_label(ns) ==> exists|m: int|
        0 <= m < ns.len() && (#[trigger] ns[m]) is Label && ns[m]->Label_0@ == "main"@
            && out[0].model() == (
        InstructionType::INST_CALL,
        seq![Word::U16((flat_count(ns, m) + 1) as u16)],
        ))
}

/// What each failure of the pipeline means of the source: the stage named
/// by the error refused its input for the stated reason, every earlier
/// stage having succeeded.
pub open spec fn pipeline_err(src: Seq<char>, e: AsmError) -> bool {
    match e {
        AsmError::Lex(le) => match le {
            LexerError::EOFWithNoTokens => lexed(src, Seq::<Token>::empty()),
            LexerError::InvalidNumber => exists|toks: Seq<Token>|
                #[trigger] stopped_at_bad_number(src, toks),
            _ => false,
        },
        AsmError::Parse(pe) => exists|toks: Seq<Token>|
            #[trigger] lexed(src, toks) && toks.len() > 0 && parse_stopped(toks, src, pe),
        AsmError::DuplicateLabel => exists|toks: Seq<Token>, ns: Seq<ASTNode>|
            lexed(src, toks) && toks.len() > 0 && #[trigger] parsed(ns, toks, src)
                && !distinct_labels(ns),
        AsmError::ProgramTooLarge => exists|toks: Seq<Token>, ns: Seq<ASTNode>|
            lexed(src, toks) && toks.len() > 0 && #[trigger] parsed(ns, toks, src)
                && distinct_labels(ns) && flat_count(ns, ns.len() as int) > 65534,
        AsmError::Compile(ce) => ce == CompilerError::UnexpectedArgument && (exists|
            toks: Seq<Token>,
            ns: Seq<ASTNode>,
        |
            lexed(src, toks) && toks.len() > 0 && #[trigger] parsed(ns, toks, src)
                && distinct_labels(ns) && flat_count(ns, ns.len() as int) <= 65534
                && tree_var_count(ns, ns.len() as int) > 65535),
    }
}

/// Assemble source text into instructions. A success ran every stage, and
/// its instructions are the statements' in order (see `pipeline_ok`); a
/// failure names the stage that refused the input and why (see
/// `pipeline_err`).
pub fn assemble_source(source: &str) -> (r: Result<Vec<Instruction>, AsmError>)
    ensures
        match r {
            Ok(out) => out@.len() <= 65535 && (exists|toks: Seq<Token>, ns: Seq<ASTNode>|
                #[trigger] pipeline_ok(source@, toks, ns, out@)),
            Err(e) => pipeline_err(source@, e),
        },
{
    let mut lexer = Lexer::new(source);
    match lexer.lex() {
        Ok(_) => {},
        Err(e) => {
            proof {
                if lexer.tokens@.len() == 0 {
                    assert(lexer.tokens@ =~= Seq::<Token>::empty());
                }
            }
            return Err(AsmError::Lex(e));
        },
    }
    let ghost toks = lexer.tokens@;
    let mut parser = Parser::new(source);
    let nodes = match parser.parse(lexer.tokens) {
        Ok(ns) => ns,
        Err(e) => {
            proof {
                assert(lexed(source@, toks));
            }
            return Err(AsmError::Parse(e));
        },
    };
    if !check_distinct_labels(&nodes) {
        proof {
            assert(parsed(nodes@, toks, source@));
        }
        return Err(AsmError::DuplicateLabel);
    }
    match count_emitted(&nodes) {
        Some(_) => {},
        None => {
            proof {
                assert(parsed(nodes@, toks, source@));
            }
            return Err(AsmError::ProgramTooLarge);
        },
    }
    let ghost ns = nodes@;
    let mut compiler = Compiler::new(nodes);
    match compiler.compile() {
        Ok(out) => {
            proof {
                if has_main_label(ns) {
                    let m = choose|m: int|
                        0 <= m < ns.len() && (#[trigger] ns[m]) is Label && ns[m]->Label_0@
                            == "main"@;
                    assert(out@[0].model() == (
                        InstructionType::INST_CALL,
                        seq![Word::U16((flat_count(ns, m) + 1) as u16)],
                    ));
                }
                assert(pipeline_ok(source@, toks, ns, out@));
            }
            Ok(out)
        },
        Err(e) => {
            proof {
                assert(parsed(ns, toks, source@));
            }
            Err(AsmError::Compile(e))
        },
    }
}

} // verus!
