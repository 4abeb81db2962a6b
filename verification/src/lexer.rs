//! The lexer: source text to tokens. Identifier runs become mnemonics or
//! labels, digit runs become 16-bit integers, quoted runs become strings;
//! a semicolon comments out the rest of a line.

use vstd::prelude::*;
use vstd::std_specs::iter::IteratorSpec;
use crate::instruction::InstructionType;

verus! {

/// What can stop the lexer.
#[derive(Debug, Clone, Copy, PartialEq, Eq, Structural)]
pub enum LexerError {
    /// The source held no token at all.
    EOFWithNoTokens,
    /// An identifier promised to be a mnemonic is none.
    InvalidInstructionType,
    /// A number this lexer does not take: an integer above sixteen bits,
    /// or a float literal.
    InvalidNumber,
    /// A label that cannot be formed.
    InvalidLabel,
}

/// A number literal: a 16-bit integer, or a half-precision float carried as
/// its bit pattern.
#[derive(Debug, Clone, Copy, PartialEq, Eq, Structural)]
pub enum NumberType {
    U16(u16),
    F16(u16),
}

/// The kind and payload of one token. A `Label` carries the character range
/// of its name in the source.
#[derive(Debug, Clone)]
pub enum TokenType {
    InstructionType(InstructionType),
    Label(usize, usize),
    StringLit(String),
    Number(NumberType),
    Colon,
    Comma,
}

/// One token with the line and column it started on.
#[derive(Debug, Clone)]
pub struct Token {
    pub tt: TokenType,
    pub line_number: usize,
    pub column: usize,
}

/// A letter or underscore: the characters of identifiers and mnemonics.
pub open spec fn is_ident_char(c: char) -> bool {
    ('a' <= c <= 'z') || ('A' <= c <= 'Z') || c == '_'
}

/// A decimal digit.
pub open spec fn is_digit_char(c: char) -> bool {
    '0' <= c <= '9'
}

/// A character that begins a token.
pub open spec fn starts_token(c: char) -> bool {
    is_ident_char(c) || is_digit_char(c) || c == '"' || c == ':' || c == ','
}

/// A character the scanner passes over silently between tokens.
pub open spec fn is_blank(c: char) -> bool {
    !starts_token(c) && c != ';' && c != '\0'
}

/// The characters in `[a, b)` lie between tokens: blanks and whole comment
/// stretches, with no token start among them.
pub open spec fn gap_ok(src: Seq<char>, a: int, b: int) -> bool
    decreases b - a,
{
    if a >= b {
        true
    } else if src[a] == ';' {
        comment_ok(src, a + 1, b)
    } else {
        is_blank(src[a]) && gap_ok(src, a + 1, b)
    }
}

/// The characters in `[a, b)` are being passed over inside a comment:
/// anything up to a newline, after which the gap resumes.
pub open spec fn comment_ok(src: Seq<char>, a: int, b: int) -> bool
    decreases b - a,
{
    if a >= b {
        true
    } else if src[a] == '\n' {
        gap_ok(src, a + 1, b)
    } else {
        comment_ok(src, a + 1, b)
    }
}

/// A gap also reads as the tail of a comment.
proof fn lemma_gap_implies_comment(src: Seq<char>, a: int, b: int)
    requires
        gap_ok(src, a, b),
    ensures
        comment_ok(src, a, b),
    decreases b - a,
{
    if a < b && src[a] != ';' && src[a] != '\n' {
        lemma_gap_implies_comment(src, a + 1, b);
    }
}

/// A comment stretch followed by a gap is a comment stretch.
proof fn lemma_comment_append(src: Seq<char>, a: int, b: int, c: int)
    requires
        a <= b <= c,
        comment_ok(src, a, b),
        gap_ok(src, b, c),
    ensures
        comment_ok(src, a, c),
    decreases b - a,
{
    if a >= b {
        lemma_gap_implies_comment(src, b, c);
    } else if src[a] == '\n' {
        lemma_gap_append(src, a + 1, b, c);
    } else {
        lemma_comment_append(src, a + 1, b, c);
    }
}

/// Two adjacent gaps are one gap.
proof fn lemma_gap_append(src: Seq<char>, a: int, b: int, c: int)
    requires
        a <= b <= c,
        gap_ok(src, a, b),
        gap_ok(src, b, c),
    ensures
        gap_ok(src, a, c),
    decreases b - a,
{
    if a < b {
        if src[a] == ';' {
            lemma_comment_append(src, a + 1, b, c);
        } else {
            lemma_gap_append(src, a + 1, b, c);
        }
    }
}

/// A run without newlines reads as part of a comment.
proof fn lemma_comment_stretch(src: Seq<char>, a: int, b: int)
    requires
        forall|j: int| a <= j < b ==> (#[trigger] src[j]) != '\n',
    ensures
        comment_ok(src, a, b),
    decreases b - a,
{
    if a < b {
        lemma_comment_stretch(src, a + 1, b);
    }
}

/// A maximal identifier run fills `[p, q)`.
pub open spec fn ident_run_at(src: Seq<char>, p: int, q: int) -> bool {
    &&& p < q <= src.len()
    &&& forall|i: int| p <= i < q ==> is_ident_char(#[trigger] src[i])
    &&& (q == src.len() || !is_ident_char(src[q]))
}

/// A maximal number run fills `[p, q)`: it starts with a digit, holds
/// digits and at most one dot, and runs as far as that shape allows.
pub open spec fn number_run_at(src: Seq<char>, p: int, q: int) -> bool {
    &&& p < q <= src.len()
    &&& is_digit_char(src[p])
    &&& forall|i: int| p <= i < q ==> (is_digit_char(#[trigger] src[i]) || src[i] == '.')
    &&& dot_count(src.subrange(p, q)) <= 1
    &&& (q == src.len() || !(is_digit_char(src[q]) || (src[q] == '.' && dot_count(
        src.subrange(p, q),
    ) == 0)))
}

/// The token a maximal number run yields: a plain digit run is a 16-bit
/// integer; a value past sixteen bits is refused, and so is a dotted run.
/// A dotted run would denote a half-precision literal, but this crate may
/// not name the outside half-precision type, not even behind a trusted
/// wrapper, so no lexer here can carry one; `F16` words themselves still
/// pass through the codec and the machine as plain bit patterns.
pub open spec fn number_of_run(run: Seq<char>) -> Result<NumberType, LexerError> {
    if dot_count(run) == 0 {
        if dec_value(run) <= 65535 {
            Ok(NumberType::U16(dec_value(run) as u16))
        } else {
            Err(LexerError::InvalidNumber)
        }
    } else {
        Err(LexerError::InvalidNumber)
    }
}

/// A string literal fills `[p, q)`: an opening quote, the content up to the
/// next quote or the end of the source, and the closing quote if there is
/// one.
pub open spec fn string_run_at(src: Seq<char>, p: int, q: int, content: Seq<char>) -> bool {
    let e = p + 1 + content.len();
    &&& p < q <= src.len()
    &&& 0 <= p
    &&& src[p] == '"'
    &&& e <= src.len()
    &&& content == src.subrange(p + 1, e)
    &&& forall|i: int| p + 1 <= i < e ==> (#[trigger] src[i]) != '"'
    &&& (if e < src.len() {
        src[e] == '"' && q == e + 1
    } else {
        q == e
    })
}

/// The token the source spells at `[p, q)`: an identifier run is promoted
/// to a mnemonic token when it names one and is a label token otherwise.
pub open spec fn token_at(src: Seq<char>, t: Token, p: int, q: int) -> bool {
    match t.tt {
        TokenType::InstructionType(tt) => ident_run_at(src, p, q) && mnemonic_of(
            src.subrange(p, q),
        ) == Some(tt),
        TokenType::Label(s, e) => s as int == p && e as int == q && ident_run_at(src, p, q)
            && mnemonic_of(src.subrange(p, q)) is None,
        TokenType::Number(num) => number_run_at(src, p, q) && number_of_run(src.subrange(p, q))
            == Ok::<NumberType, LexerError>(num),
        TokenType::StringLit(sv) => string_run_at(src, p, q, sv@),
        TokenType::Colon => 0 <= p < src.len() && q == p + 1 && src[p] == ':',
        TokenType::Comma => 0 <= p < src.len() && q == p + 1 && src[p] == ',',
    }
}

/// Where the gap before token `i` begins: the previous token's end, or the
/// head of the source.
pub open spec fn cut_start(cuts: Seq<(int, int)>, i: int) -> int {
    if i == 0 {
        0
    } else {
        cuts[i - 1].1
    }
}

/// The cuts tie each token to the source run it was read from, in order,
/// with only blanks and comments between consecutive runs.
pub open spec fn cuts_ok(src: Seq<char>, toks: Seq<Token>, cuts: Seq<(int, int)>) -> bool {
    &&& cuts.len() == toks.len()
    &&& forall|i: int|
        0 <= i < toks.len() ==> token_at(src, #[trigger] toks[i], cuts[i].0, cuts[i].1)
    &&& forall|i: int|
        0 <= i < toks.len() ==> gap_ok(src, cut_start(cuts, i), (#[trigger] cuts[i]).0)
            && cut_start(cuts, i) <= cuts[i].0
}

/// From `a` on, only blanks and comments follow, up to the end of the
/// source or a NUL that stops the scan.
pub open spec fn tail_from(src: Seq<char>, a: int) -> bool {
    exists|stop: int|
        a <= stop <= src.len() && #[trigger] gap_ok(src, a, stop) && (stop == src.len()
            || src[stop] == '\0')
}

/// The token list is exactly what scanning the source yields: each token
/// spelled by its own run, nothing but blanks and comments in between, and
/// nothing but those after the last.
pub open spec fn lexed(src: Seq<char>, toks: Seq<Token>) -> bool {
    exists|cuts: Seq<(int, int)>|
        #[trigger] cuts_ok(src, toks, cuts) && tail_from(src, cut_start(cuts, cuts.len() as int))
}

/// The scan read the given tokens and then stopped at a number run whose
/// value no token can carry.
pub open spec fn stopped_at_bad_number(src: Seq<char>, toks: Seq<Token>) -> bool {
    exists|cuts: Seq<(int, int)>|
        #[trigger] cuts_ok(src, toks, cuts) && (exists|p: int, q: int|
            #[trigger] number_run_at(src, p, q) && gap_ok(
                src,
                cut_start(cuts, cuts.len() as int),
                p,
            ) && cut_start(cuts, cuts.len() as int) <= p && number_of_run(src.subrange(p, q))
                == Err::<NumberType, LexerError>(LexerError::InvalidNumber))
}

/// Recording one more token, spelled at `[p, q)` past the tokens already
/// recorded, keeps the cuts valid.
proof fn lemma_cuts_push(
    src: Seq<char>,
    toks: Seq<Token>,
    cuts: Seq<(int, int)>,
    t: Token,
    p: int,
    q: int,
)
    requires
        cuts_ok(src, toks, cuts),
        gap_ok(src, cut_start(cuts, cuts.len() as int), p),
        cut_start(cuts, cuts.len() as int) <= p,
        token_at(src, t, p, q),
    ensures
        cuts_ok(src, toks.push(t), cuts.push((p, q))),
{
    let toks2 = toks.push(t);
    let cuts2 = cuts.push((p, q));
    assert forall|i: int| 0 <= i < toks2.len() implies token_at(
        src,
        #[trigger] toks2[i],
        cuts2[i].0,
        cuts2[i].1,
    ) by {
        if i < toks.len() {
            assert(toks2[i] == toks[i]);
            assert(cuts2[i] == cuts[i]);
        } else {
            assert(toks2[i] == t);
            assert(cuts2[i] == (p, q));
        }
    }
    assert forall|i: int| 0 <= i < toks2.len() implies gap_ok(
        src,
        cut_start(cuts2, i),
        (#[trigger] cuts2[i]).0,
    ) && cut_start(cuts2, i) <= cuts2[i].0 by {
        if i < toks.len() {
            assert(cuts2[i] == cuts[i]);
            assert(cut_start(cuts2, i) == cut_start(cuts, i));
        } else {
            assert(cuts2[i] == (p, q));
            assert(cut_start(cuts2, i) == cut_start(cuts, cuts.len() as int));
        }
    }
}

/// A label token points at a nonempty identifier run of the source that
/// names no mnemonic.
pub open spec fn label_token_wf(t: Token, src: Seq<char>) -> bool {
    t.tt matches TokenType::Label(s, e) ==> s < e <= src.len() && mnemonic_of(
        src.subrange(s as int, e as int),
    ) is None
}

/// The value of a run of decimal digits.
pub open spec fn dec_value(s: Seq<char>) -> int
    decreases s.len(),
{
    if s.len() == 0 {
        0
    } else {
        dec_value(s.drop_last()) * 10 + (s.last() as int - '0' as int)
    }
}

pub open spec fn all_digits(s: Seq<char>) -> bool {
    forall|i: int| 0 <= i < s.len() ==> '0' <= #[trigger] s[i] <= '9'
}

/// How many dots a character run holds.
pub open spec fn dot_count(s: Seq<char>) -> int
    decreases s.len(),
{
    if s.len() == 0 {
        0
    } else {
        dot_count(s.drop_last()) + if s.last() == '.' {
            1int
        } else {
            0int
        }
    }
}

proof fn lemma_dot_nonneg(s: Seq<char>)
    ensures
        dot_count(s) >= 0,
    decreases s.len(),
{
    if s.len() > 0 {
        lemma_dot_nonneg(s.drop_last());
    }
}

proof fn lemma_dot_positive(s: Seq<char>, i: int)
    requires
        0 <= i < s.len(),
        s[i] == '.',
    ensures
        dot_count(s) >= 1,
    decreases s.len(),
{
    lemma_dot_nonneg(s.drop_last());
    if i < s.len() - 1 {
        assert(s.drop_last()[i] == s[i]);
        lemma_dot_positive(s.drop_last(), i);
    }
}

/// The next column, pinned at the largest representable one.
fn bump(x: usize) -> (r: usize)
    ensures
        r >= x,
{
    if x < usize::MAX {
        x + 1
    } else {
        x
    }
}

/// Relies on `String`'s `FromIterator`, which appends the characters in
/// order.
#[verifier::external_body]
pub fn string_from_chars(v: &Vec<char>) -> (r: String)
    ensures
        r@ == v@,
{
    String::from_iter(v.iter().copied())
}

/// The characters of a source string, in order.
pub fn str_chars(s: &str) -> (r: Vec<char>)
    ensures
        r@ == s@,
{
    let mut it = s.chars();
    let mut r: Vec<char> = Vec::new();
    loop
        invariant_except_break
            r@ + it.remaining() == s@,
        ensures
            r@ == s@,
        decreases s@.len() - r@.len(),
    {
        match it.next() {
            Some(c) => {
                r.push(c);
                proof {
                    assert(r@ + it.remaining() =~= s@);
                }
            },
            None => {
                proof {
                    assert(r@ + it.remaining() =~= r@);
                    assert(r@ =~= s@);
                }
                break;
            },
        }
    }
    r
}

/// The mnemonic an identifier names, if any.
pub open spec fn mnemonic_of(s: Seq<char>) -> Option<InstructionType> {
    if s == "NOOP"@ { Some(InstructionType::INST_NOOP) }
    else if s == "PUSH"@ { Some(InstructionType::INST_PUSH) }
    else if s == "POP"@ { Some(InstructionType::INST_POP) }
    else if s == "ADD"@ { Some(InstructionType::INST_ADD) }
    else if s == "AND"@ { Some(InstructionType::INST_AND) }
    else if s == "OR"@ { Some(InstructionType::INST_OR) }
    else if s == "XOR"@ { Some(InstructionType::INST_XOR) }
    else if s == "NOT"@ { Some(InstructionType::INST_NOT) }
    else if s == "SHL"@ { Some(InstructionType::INST_SHL) }
    else if s == "SHR"@ { Some(InstructionType::INST_SHR) }
    else if s == "MUL"@ { Some(InstructionType::INST_MUL) }
    else if s == "DIV"@ { Some(InstructionType::INST_DIV) }
    else if s == "SUB"@ { Some(InstructionType::INST_SUB) }
    else if s == "JMPZ"@ { Some(InstructionType::INST_JMPZ) }
    else if s == "JMPEQ"@ { Some(InstructionType::INST_JMPEQ) }
    else if s == "JMPNEQ"@ { Some(InstructionType::INST_JMPNEQ) }
    else if s == "JMPNZ"@ { Some(InstructionType::INST_JMPNZ) }
    else if s == "PUSH_STR"@ { Some(InstructionType::INST_PUSH_STR) }
    else if s == "ALLOC"@ { Some(InstructionType::INST_ALLOC) }
    else if s == "ALLOC_RAW"@ { Some(InstructionType::INST_ALLOC_RAW) }
    else if s == "SYSCALL"@ { Some(InstructionType::INST_SYSCALL) }
    else if s == "DUP"@ { Some(InstructionType::INST_DUP) }
    else if s == "INSWAP"@ { Some(InstructionType::INST_INSWAP) }
    else if s == "PRINT"@ { Some(InstructionType::INST_PRINT) }
    else if s == "LOAD"@ { Some(InstructionType::INST_LOAD) }
    else if s == "STORE"@ { Some(InstructionType::INST_STORE) }
    else if s == "DEREF"@ { Some(InstructionType::INST_DEREF) }
    else if s == "REF"@ { Some(InstructionType::INST_REF) }
    else if s == "DEBUG"@ { Some(InstructionType::INST_DEBUG) }
    else if s == "CALL"@ { Some(InstructionType::INST_CALL) }
    else if s == "RET"@ { Some(InstructionType::INST_RET) }
    else if s == "PUT"@ { Some(InstructionType::INST_PUT) }
    else if s == "STD_SYSCALL"@ { Some(InstructionType::INST_STD_SYSCALL) }
    else if s == "DLL_LOAD"@ { Some(InstructionType::INST_DLL_LOAD) }
    else if s == "DLL_CALL"@ { Some(InstructionType::INST_DLL_CALL) }
    else { None }
}

/// Look an identifier up in the mnemonic table.
pub fn lookup_mnemonic(s: &String) -> (r: Option<InstructionType>)
    ensures
        r == mnemonic_of(s@),
{
    if s.eq(&"NOOP".to_owned()) { Some(InstructionType::INST_NOOP) }
    else if s.eq(&"PUSH".to_owned()) { Some(InstructionType::INST_PUSH) }
    else if s.eq(&"POP".to_owned()) { Some(InstructionType::INST_POP) }
    else if s.eq(&"ADD".to_owned()) { Some(InstructionType::INST_ADD) }
    else if s.eq(&"AND".to_owned()) { Some(InstructionType::INST_AND) }
    else if s.eq(&"OR".to_owned()) { Some(InstructionType::INST_OR) }
    else if s.eq(&"XOR".to_owned()) { Some(InstructionType::INST_XOR) }
    else if s.eq(&"NOT".to_owned()) { Some(InstructionType::INST_NOT) }
    else if s.eq(&"SHL".to_owned()) { Some(InstructionType::INST_SHL) }
    else if s.eq(&"SHR".to_owned()) { Some(InstructionType::INST_SHR) }
    else if s.eq(&"MUL".to_owned()) { Some(InstructionType::INST_MUL) }
    else if s.eq(&"DIV".to_owned()) { Some(InstructionType::INST_DIV) }
    else if s.eq(&"SUB".to_owned()) { Some(InstructionType::INST_SUB) }
    else if s.eq(&"JMPZ".to_owned()) { Some(InstructionType::INST_JMPZ) }
    else if s.eq(&"JMPEQ".to_owned()) { Some(InstructionType::INST_JMPEQ) }
    else if s.eq(&"JMPNEQ".to_owned()) { Some(InstructionType::INST_JMPNEQ) }
    else if s.eq(&"JMPNZ".to_owned()) { Some(InstructionType::INST_JMPNZ) }
    else if s.eq(&"PUSH_STR".to_owned()) { Some(InstructionType::INST_PUSH_STR) }
    else if s.eq(&"ALLOC".to_owned()) { Some(InstructionType::INST_ALLOC) }
    else if s.eq(&"ALLOC_RAW".to_owned()) { Some(InstructionType::INST_ALLOC_RAW) }
    else if s.eq(&"SYSCALL".to_owned()) { Some(InstructionType::INST_SYSCALL) }
    else if s.eq(&"DUP".to_owned()) { Some(InstructionType::INST_DUP) }
    else if s.eq(&"INSWAP".to_owned()) { Some(InstructionType::INST_INSWAP) }
    else if s.eq(&"PRINT".to_owned()) { Some(InstructionType::INST_PRINT) }
    else if s.eq(&"LOAD".to_owned()) { Some(InstructionType::INST_LOAD) }
    else if s.eq(&"STORE".to_owned()) { Some(InstructionType::INST_STORE) }
    else if s.eq(&"DEREF".to_owned()) { Some(InstructionType::INST_DEREF) }
    else if s.eq(&"REF".to_owned()) { Some(InstructionType::INST_REF) }
    else if s.eq(&"DEBUG".to_owned()) { Some(InstructionType::INST_DEBUG) }
    else if s.eq(&"CALL".to_owned()) { Some(InstructionType::INST_CALL) }
    else if s.eq(&"RET".to_owned()) { Some(InstructionType::INST_RET) }
    else if s.eq(&"PUT".to_owned()) { Some(InstructionType::INST_PUT) }
    else if s.eq(&"STD_SYSCALL".to_owned()) { Some(InstructionType::INST_STD_SYSCALL) }
    else if s.eq(&"DLL_LOAD".to_owned()) { Some(InstructionType::INST_DLL_LOAD) }
    else if s.eq(&"DLL_CALL".to_owned()) { Some(InstructionType::INST_DLL_CALL) }
    else { None }
}

/// The characters a number scan collected give the digit-or-dot shape on
/// the source itself.
proof fn lemma_number_run_shape(src: Seq<char>, p: int, q: int, run: Seq<char>)
    requires
        0 <= p < q <= src.len(),
        run == src.subrange(p, q),
        forall|i: int| 0 <= i < run.len() ==> ('0' <= #[trigger] run[i] <= '9' || run[i] == '.'),
    ensures
        forall|i: int| p <= i < q ==> (is_digit_char(#[trigger] src[i]) || src[i] == '.'),
{
    assert forall|i: int| p <= i < q implies (is_digit_char(#[trigger] src[i]) || src[i]
        == '.') by {
        assert(src[i] == run[i - p]);
    }
}

/// A longer digit run denotes at least as large a value.
proof fn lemma_dec_value_monotone(s: Seq<char>, k: int)
    requires
        0 <= k <= s.len(),
        all_digits(s),
    ensures
        dec_value(s.take(k)) <= dec_value(s),
        dec_value(s) >= 0,
    decreases s.len() - k,
{
    lemma_dec_value_nonneg(s);
    if k < s.len() {
        lemma_dec_value_monotone(s, k + 1);
        assert(s.take(k + 1).drop_last() =~= s.take(k));
        assert(dec_value(s.take(k + 1)) == dec_value(s.take(k)) * 10 + (s.take(k + 1).last() as int
            - '0' as int));
        assert(all_digits(s.take(k))) by {
            assert(forall|i: int| 0 <= i < k ==> s.take(k)[i] == s[i]);
        }
        lemma_dec_value_nonneg(s.take(k));
    } else {
        assert(s.take(k) =~= s);
    }
}

proof fn lemma_dec_value_nonneg(s: Seq<char>)
    requires
        all_digits(s),
    ensures
        dec_value(s) >= 0,
    decreases s.len(),
{
    if s.len() > 0 {
        assert(all_digits(s.drop_last())) by {
            assert(forall|i: int| 0 <= i < s.len() - 1 ==> s.drop_last()[i] == s[i]);
        }
        lemma_dec_value_nonneg(s.drop_last());
    }
}

/// Parse a run of decimal digits as a 16-bit integer; `None` exactly when
/// the value does not fit.
pub fn parse_u16_digits(digits: &Vec<char>) -> (r: Option<u16>)
    requires
        all_digits(digits@),
    ensures
        match r {
            Some(v) => v == dec_value(digits@),
            None => dec_value(digits@) > 65535,
        },
{
    let mut acc: u32 = 0;
    let mut i: usize = 0;
    proof {
        assert(digits@.take(0) =~= Seq::<char>::empty());
    }
    while i < digits.len()
        invariant
            i <= digits@.len(),
            all_digits(digits@),
            acc == dec_value(digits@.take(i as int)),
            acc <= 65535,
        decreases digits@.len() - i,
    {
        let c = digits[i];
        let d = (c as u32) - ('0' as u32);
        proof {
            assert(digits@.take(i + 1).drop_last() =~= digits@.take(i as int));
            assert(digits@.take(i + 1).last() == digits@[i as int]);
        }
        let next = acc * 10 + d;
        if next > 65535 {
            proof {
                lemma_dec_value_monotone(digits@, i + 1);
            }
            return None;
        }
        acc = next;
        i = i + 1;
    }
    proof {
        assert(digits@.take(digits@.len() as int) =~= digits@);
    }
    Some(acc as u16)
}

/// The lexer: reads the source left to right, producing tokens.
pub struct Lexer {
    /// The source as characters.
    pub source_code: Vec<char>,
    /// Position of the next unread character.
    pub current_index: usize,
    /// The tokens produced so far.
    pub tokens: Vec<Token>,
    pub line_number: usize,
    pub column: usize,
}

impl Lexer {
    /// A lexer over the given source text.
    pub fn new(source_code: &str) -> (r: Self)
        ensures
            r.source_code@ == source_code@,
            r.tokens@.len() == 0,
            r.current_index == 0,
    {
        Lexer {
            source_code: str_chars(source_code),
            current_index: 0,
            column: 0,
            tokens: Vec::new(),
            line_number: 0,
        }
    }

    /// Step past one character.
    pub fn advance(&mut self)
        ensures
            final(self).source_code == old(self).source_code,
            final(self).tokens == old(self).tokens,
            final(self).line_number == old(self).line_number,
            old(self).current_index < old(self).source_code@.len() ==> final(self).current_index
                == old(self).current_index + 1,
            old(self).current_index >= old(self).source_code@.len() ==> final(self).current_index
                == old(self).current_index,
    {
        if self.current_index < self.source_code.len() {
            self.current_index = self.current_index + 1;
            self.column = bump(self.column);
        }
    }

    /// Scan the maximal identifier run (letters and underscores) starting
    /// here and return its half-open character range; the parser decides
    /// whether it names a label or a variable.
    pub fn build_label(&mut self) -> (r: (usize, usize))
        requires
            old(self).current_index < old(self).source_code@.len(),
            is_ident_char(old(self).source_code@[old(self).current_index as int]),
        ensures
            final(self).source_code == old(self).source_code,
            final(self).tokens == old(self).tokens,
            final(self).line_number == old(self).line_number,
            r.0 == old(self).current_index,
            r.0 < r.1 <= final(self).source_code@.len(),
            final(self).current_index == r.1,
            ident_run_at(final(self).source_code@, r.0 as int, r.1 as int),
    {
        let start = self.current_index;
        let total = self.source_code.len();
        self.current_index = self.current_index + 1;
        self.column = bump(self.column);
        loop
            invariant
                start < self.current_index <= self.source_code@.len(),
                self.source_code == old(self).source_code,
                self.tokens == old(self).tokens,
                self.line_number == old(self).line_number,
                forall|i: int|
                    start <= i < self.current_index ==> is_ident_char(
                        #[trigger] self.source_code@[i],
                    ),
            ensures
                self.source_code == old(self).source_code,
                self.tokens == old(self).tokens,
                self.line_number == old(self).line_number,
                start < self.current_index <= self.source_code@.len(),
                ident_run_at(self.source_code@, start as int, self.current_index as int),
            decreases self.source_code@.len() - self.current_index,
        {
            if self.current_index >= self.source_code.len() {
                break;
            }
            let c = self.source_code[self.current_index];
            if !((c >= 'a' && c <= 'z') || (c >= 'A' && c <= 'Z') || c == '_') {
                break;
            }
            self.current_index = self.current_index + 1;
            self.column = bump(self.column);
        }
        (start, self.current_index)
    }


    /// Scan the maximal identifier run at the cursor and give the mnemonic
    /// it names; a run that names none is an error, and the cursor still
    /// moves past it.
    pub fn build_ident(&mut self) -> (r: Result<InstructionType, LexerError>)
        requires
            old(self).current_index < old(self).source_code@.len(),
            is_ident_char(old(self).source_code@[old(self).current_index as int]),
        ensures
            final(self).source_code == old(self).source_code,
            final(self).tokens == old(self).tokens,
            final(self).line_number == old(self).line_number,
            old(self).current_index < final(self).current_index
                <= final(self).source_code@.len(),
            ident_run_at(
                final(self).source_code@,
                old(self).current_index as int,
                final(self).current_index as int,
            ),
            ({
                let run = final(self).source_code@.subrange(
                    old(self).current_index as int,
                    final(self).current_index as int,
                );
                match r {
                    Ok(tt) => mnemonic_of(run) == Some(tt),
                    Err(e) => mnemonic_of(run) is None && e
                        == LexerError::InvalidInstructionType,
                }
            }),
    {
        let (s, e) = self.build_label();
        let mut name: Vec<char> = Vec::new();
        let mut i = s;
        proof {
            assert(self.source_code@.subrange(s as int, s as int) =~= Seq::<char>::empty());
        }
        while i < e
            invariant
                s <= i <= e,
                e <= self.source_code@.len(),
                name@ == self.source_code@.subrange(s as int, i as int),
            decreases e - i,
        {
            let ch = self.source_code[i];
            name.push(ch);
            i = i + 1;
            proof {
                assert(name@ =~= self.source_code@.subrange(s as int, i as int));
            }
        }
        let text = string_from_chars(&name);
        match lookup_mnemonic(&text) {
            Some(tt) => Ok(tt),
            None => Err(LexerError::InvalidInstructionType),
        }
    }

    /// Scan a string literal: the opening quote is under the cursor; the
    /// content runs exactly to the next quote — or the end of the source —
    /// and the cursor ends just past the closing quote.
    pub fn build_string(&mut self) -> (r: String)
        requires
            old(self).current_index < old(self).source_code@.len(),
            old(self).source_code@[old(self).current_index as int] == '"',
        ensures
            final(self).source_code == old(self).source_code,
            final(self).tokens == old(self).tokens,
            final(self).line_number == old(self).line_number,
            final(self).current_index > old(self).current_index,
            final(self).current_index <= final(self).source_code@.len(),
            string_run_at(
                final(self).source_code@,
                old(self).current_index as int,
                final(self).current_index as int,
                r@,
            ),
    {
        let total = self.source_code.len();
        self.current_index = self.current_index + 1;
        self.column = bump(self.column);
        let start = self.current_index;
        let mut content: Vec<char> = Vec::new();
        proof {
            assert(self.source_code@.subrange(start as int, start as int) =~= Seq::<char>::empty());
        }
        while self.current_index < self.source_code.len() && self.source_code[self.current_index]
            != '"'
            invariant
                start <= self.current_index <= self.source_code@.len(),
                self.source_code == old(self).source_code,
                self.tokens == old(self).tokens,
                start == old(self).current_index + 1,
                self.line_number == old(self).line_number,
                content@ == self.source_code@.subrange(start as int, self.current_index as int),
                forall|i: int|
                    start <= i < self.current_index ==> (#[trigger] self.source_code@[i]) != '"',
            decreases self.source_code@.len() - self.current_index,
        {
            let c = self.source_code[self.current_index];
            content.push(c);
            self.current_index = self.current_index + 1;
            self.column = bump(self.column);
            proof {
                assert(content@ =~= self.source_code@.subrange(
                    start as int,
                    self.current_index as int,
                ));
            }
        }
        let ghost e = self.current_index as int;
        if self.current_index < self.source_code.len() {
            self.current_index = self.current_index + 1;
            self.column = bump(self.column);
        }
        let out = string_from_chars(&content);
        proof {
            assert(old(self).current_index < e <= self.source_code@.len());
            assert(out@ == self.source_code@.subrange(old(self).current_index + 1, e));
            assert(e == old(self).current_index + 1 + out@.len());
            assert(string_run_at(
                self.source_code@,
                old(self).current_index as int,
                self.current_index as int,
                out@,
            ));
        }
        out
    }

    /// Scan the maximal number run at the cursor: a plain digit run is a
    /// 16-bit integer; a dotted run is refused (see `number_of_run`).
    pub fn build_number(&mut self) -> (r: Result<NumberType, LexerError>)
        requires
            old(self).current_index < old(self).source_code@.len(),
            '0' <= old(self).source_code@[old(self).current_index as int] <= '9',
        ensures
            final(self).source_code == old(self).source_code,
            final(self).tokens == old(self).tokens,
            final(self).line_number == old(self).line_number,
            final(self).current_index > old(self).current_index,
            final(self).current_index <= final(self).source_code@.len(),
            number_run_at(
                final(self).source_code@,
                old(self).current_index as int,
                final(self).current_index as int,
            ),
            r == number_of_run(
                final(self).source_code@.subrange(
                    old(self).current_index as int,
                    final(self).current_index as int,
                ),
            ),
    {
        let start = self.current_index;
        let mut run: Vec<char> = Vec::new();
        let mut seen_dot = false;
        let ghost src = self.source_code@;
        let total = self.source_code.len();
        let first = self.source_code[self.current_index];
        run.push(first);
        self.current_index = self.current_index + 1;
        self.column = bump(self.column);
        proof {
            assert(run@ =~= self.source_code@.subrange(start as int, self.current_index as int));
            assert(run@.len() == 1);
            assert(run@.last() == first);
            assert(first != '.');
            assert(run@.drop_last() =~= Seq::<char>::empty());
            assert(dot_count(Seq::<char>::empty()) == 0);
            assert(dot_count(run@.drop_last()) == 0);
            assert(dot_count(run@) == 0);
        }
        loop
            invariant
                start <= self.current_index <= self.source_code@.len(),
                self.source_code == old(self).source_code,
                self.tokens == old(self).tokens,
                self.line_number == old(self).line_number,
                start == old(self).current_index,
                start < self.current_index,
                '0' <= self.source_code@[start as int] <= '9',
                run@ == self.source_code@.subrange(start as int, self.current_index as int),
                seen_dot <==> dot_count(run@) == 1,
                0 <= dot_count(run@) <= 1,
                forall|i: int|
                    0 <= i < run@.len() ==> ('0' <= #[trigger] run@[i] <= '9' || run@[i] == '.'),
            ensures
                self.source_code == old(self).source_code,
                self.tokens == old(self).tokens,
                self.line_number == old(self).line_number,
                start == old(self).current_index,
                start < self.current_index <= self.source_code@.len(),
                run@ == self.source_code@.subrange(start as int, self.current_index as int),
                seen_dot <==> dot_count(run@) == 1,
                0 <= dot_count(run@) <= 1,
                forall|i: int|
                    0 <= i < run@.len() ==> ('0' <= #[trigger] run@[i] <= '9' || run@[i] == '.'),
                number_run_at(self.source_code@, start as int, self.current_index as int),
            decreases self.source_code@.len() - self.current_index,
        {
            if self.current_index >= self.source_code.len() {
                proof {
                    lemma_number_run_shape(self.source_code@, start as int, self.current_index as int, run@);
                }
                break;
            }
            let c = self.source_code[self.current_index];
            if !((c >= '0' && c <= '9') || (c == '.' && !seen_dot)) {
                proof {
                    lemma_number_run_shape(self.source_code@, start as int, self.current_index as int, run@);
                }
                break;
            }
            run.push(c);
            if c == '.' {
                seen_dot = true;
            }
            self.current_index = self.current_index + 1;
            self.column = bump(self.column);
            proof {
                assert(run@ =~= self.source_code@.subrange(
                    start as int,
                    self.current_index as int,
                ));
                assert(run@.drop_last() =~= self.source_code@.subrange(
                    start as int,
                    self.current_index - 1,
                ));
                lemma_dot_nonneg(run@.drop_last());
            }
        }
        if seen_dot {
            Err(LexerError::InvalidNumber)
        } else {
            proof {
                lemma_dot_nonneg(run@);
                assert forall|i: int| 0 <= i < run@.len() implies '0' <= #[trigger] run@[i]
                    <= '9' by {
                    if run@[i] == '.' {
                        lemma_dot_positive(run@, i);
                    }
                }
            }
            match parse_u16_digits(&run) {
                Some(v) => Ok(NumberType::U16(v)),
                None => Err(LexerError::InvalidNumber),
            }
        }
    }

    /// Tokenize the whole source. The token list is exactly what scanning
    /// the source yields (see `lexed`): identifier runs become mnemonic or
    /// label tokens, number runs integer or float tokens, quoted runs
    /// string tokens, with only blanks and comments in between. A source
    /// that yields no token at all is an error, and so is a number run no
    /// token can carry; nothing else stops the scan.
    pub fn lex(&mut self) -> (r: Result<usize, LexerError>)
        requires
            old(self).current_index == 0,
            old(self).tokens@.len() == 0,
        ensures
            final(self).source_code == old(self).source_code,
            forall|i: int|
                0 <= i < final(self).tokens@.len() ==> label_token_wf(
                    #[trigger] final(self).tokens@[i],
                    final(self).source_code@,
                ),
            forall|i: int, j: int|
                0 <= i < j < final(self).tokens@.len() ==> (#[trigger] final(self).tokens@[i]).line_number
                    <= (#[trigger] final(self).tokens@[j]).line_number,
            match r {
                Ok(n) => n == final(self).tokens@.len() && n > 0 && lexed(
                    final(self).source_code@,
                    final(self).tokens@,
                ),
                Err(e) => match e {
                    LexerError::EOFWithNoTokens => final(self).tokens@.len() == 0 && lexed(
                        final(self).source_code@,
                        final(self).tokens@,
                    ),
                    LexerError::InvalidNumber => stopped_at_bad_number(
                        final(self).source_code@,
                        final(self).tokens@,
                    ),
                    _ => false,
                },
            },
    {
        let ghost mut cuts: Seq<(int, int)> = Seq::empty();
        let ghost mut gend: int = 0;
        while self.current_index < self.source_code.len()
            invariant
                self.current_index <= self.source_code@.len(),
                self.source_code == old(self).source_code,
                cuts_ok(self.source_code@, self.tokens@, cuts),
                cut_start(cuts, cuts.len() as int) <= gend <= self.source_code@.len(),
                gap_ok(self.source_code@, cut_start(cuts, cuts.len() as int), gend),
                gend == self.current_index as int || (gend < self.source_code@.len()
                    && self.source_code@[gend] == '\0' && self.current_index
                    == self.source_code@.len()),
                forall|i: int|
                    0 <= i < self.tokens@.len() ==> label_token_wf(
                        #[trigger] self.tokens@[i],
                        self.source_code@,
                    ),
                forall|i: int|
                    0 <= i < self.tokens@.len() ==> (#[trigger] self.tokens@[i]).line_number
                        <= self.line_number,
                forall|i: int, j: int|
                    0 <= i < j < self.tokens@.len() ==> (#[trigger] self.tokens@[i]).line_number
                        <= (#[trigger] self.tokens@[j]).line_number,
            decreases self.source_code@.len() - self.current_index,
        {
            let ghost src = self.source_code@;
            let ghost prev = cut_start(cuts, cuts.len() as int);
            let c = self.source_code[self.current_index];
            if (c >= 'a' && c <= 'z') || (c >= 'A' && c <= 'Z') || c == '_' {
                let column = self.column;
                let line = self.line_number;
                let (s, e) = self.build_label();
                let mut name: Vec<char> = Vec::new();
                let mut i = s;
                proof {
                    assert(self.source_code@.subrange(s as int, s as int) =~= Seq::<
                        char,
                    >::empty());
                }
                while i < e
                    invariant
                        s <= i <= e,
                        e <= self.source_code@.len(),
                        name@ == self.source_code@.subrange(s as int, i as int),
                    decreases e - i,
                {
                    let ch = self.source_code[i];
                    name.push(ch);
                    i = i + 1;
                    proof {
                        assert(name@ =~= self.source_code@.subrange(s as int, i as int));
                    }
                }
                let text = string_from_chars(&name);
                let ghost toks0 = self.tokens@;
                match lookup_mnemonic(&text) {
                    Some(tt) => {
                        let t = Token {
                            tt: TokenType::InstructionType(tt),
                            line_number: line,
                            column,
                        };
                        proof {
                            assert(label_token_wf(t, self.source_code@));
                            assert(text@ == src.subrange(s as int, e as int));
                            assert(token_at(src, t, s as int, e as int));
                            lemma_cuts_push(src, toks0, cuts, t, s as int, e as int);
                            cuts = cuts.push((s as int, e as int));
                            gend = e as int;
                            assert(gap_ok(src, e as int, e as int));
                        }
                        self.tokens.push(t);
                    },
                    None => {
                        let t = Token { tt: TokenType::Label(s, e), line_number: line, column };
                        proof {
                            assert(text@ == self.source_code@.subrange(s as int, e as int));
                            assert(label_token_wf(t, self.source_code@));
                            assert(token_at(src, t, s as int, e as int));
                            lemma_cuts_push(src, toks0, cuts, t, s as int, e as int);
                            cuts = cuts.push((s as int, e as int));
                            gend = e as int;
                            assert(gap_ok(src, e as int, e as int));
                        }
                        self.tokens.push(t);
                    },
                }
            } else if c >= '0' && c <= '9' {
                let column = self.column;
                let line = self.line_number;
                let ghost p = self.current_index as int;
                let number = match self.build_number() {
                    Ok(n) => n,
                    Err(e) => {
                        proof {
                            let q = self.current_index as int;
                            assert(number_run_at(src, p, q));
                            assert(number_of_run(src.subrange(p, q)) == Err::<
                                NumberType,
                                LexerError,
                            >(LexerError::InvalidNumber));
                            assert(cuts_ok(src, self.tokens@, cuts));
                            assert(stopped_at_bad_number(src, self.tokens@));
                        }
                        return Err(e);
                    },
                };
                let t = Token { tt: TokenType::Number(number), line_number: line, column };
                let ghost toks0 = self.tokens@;
                proof {
                    let q = self.current_index as int;
                    assert(label_token_wf(t, self.source_code@));
                    assert(token_at(src, t, p, q));
                    lemma_cuts_push(src, toks0, cuts, t, p, q);
                    cuts = cuts.push((p, q));
                    gend = q;
                    assert(gap_ok(src, q, q));
                }
                self.tokens.push(t);
            } else if c == '"' {
                let column = self.column;
                let line = self.line_number;
                let ghost p = self.current_index as int;
                let parsed = self.build_string();
                let t = Token { tt: TokenType::StringLit(parsed), line_number: line, column };
                let ghost toks0 = self.tokens@;
                proof {
                    let q = self.current_index as int;
                    assert(label_token_wf(t, self.source_code@));
                    assert(token_at(src, t, p, q));
                    lemma_cuts_push(src, toks0, cuts, t, p, q);
                    cuts = cuts.push((p, q));
                    gend = q;
                    assert(gap_ok(src, q, q));
                }
                self.tokens.push(t);
            } else if c == ';' {
                let ghost p0 = self.current_index as int;
                let ghost toks = self.tokens@;
                let ghost ln0 = self.line_number;
                let ghost col0 = self.column;
                self.current_index = self.current_index + 1;
                while self.current_index < self.source_code.len()
                    && self.source_code[self.current_index] != '\n'
                    invariant
                        p0 < self.current_index <= self.source_code@.len(),
                        self.source_code == old(self).source_code,
                        self.tokens@ == toks,
                        self.line_number == ln0,
                        self.column == col0,
                        forall|j: int|
                            p0 < j < self.current_index ==> (#[trigger] self.source_code@[j])
                                != '\n',
                    decreases self.source_code@.len() - self.current_index,
                {
                    self.current_index = self.current_index + 1;
                }
                proof {
                    let m = self.current_index as int;
                    lemma_comment_stretch(src, p0 + 1, m);
                    assert(gap_ok(src, p0, m));
                    lemma_gap_append(src, prev, p0, m);
                    gend = m;
                }
            } else if c == ':' {
                let t = Token {
                    tt: TokenType::Colon,
                    line_number: self.line_number,
                    column: self.column,
                };
                let ghost toks0 = self.tokens@;
                let ghost p = self.current_index as int;
                proof {
                    assert(label_token_wf(t, self.source_code@));
                    assert(token_at(src, t, p, p + 1));
                    lemma_cuts_push(src, toks0, cuts, t, p, p + 1);
                    cuts = cuts.push((p, p + 1));
                    gend = p + 1;
                    assert(gap_ok(src, p + 1, p + 1));
                }
                self.tokens.push(t);
                self.advance();
            } else if c == ',' {
                let t = Token {
                    tt: TokenType::Comma,
                    line_number: self.line_number,
                    column: self.column,
                };
                let ghost toks0 = self.tokens@;
                let ghost p = self.current_index as int;
                proof {
                    assert(label_token_wf(t, self.source_code@));
                    assert(token_at(src, t, p, p + 1));
                    lemma_cuts_push(src, toks0, cuts, t, p, p + 1);
                    cuts = cuts.push((p, p + 1));
                    gend = p + 1;
                    assert(gap_ok(src, p + 1, p + 1));
                }
                self.tokens.push(t);
                self.advance();
            } else if c == '\n' {
                proof {
                    assert(is_blank(c));
                    assert(gap_ok(src, gend + 1, gend + 1));
                    assert(gap_ok(src, gend, gend + 1));
                    lemma_gap_append(src, prev, gend, gend + 1);
                    gend = gend + 1;
                }
                self.line_number = bump(self.line_number);
                self.column = 0;
                self.current_index = self.current_index + 1;
            } else if c == '\0' {
                self.current_index = self.source_code.len();
            } else {
                proof {
                    assert(is_blank(c));
                    assert(gap_ok(src, gend + 1, gend + 1));
                    assert(gap_ok(src, gend, gend + 1));
                    lemma_gap_append(src, prev, gend, gend + 1);
                    gend = gend + 1;
                }
                self.advance();
            }
        }
        proof {
            let src = self.source_code@;
            let a = cut_start(cuts, cuts.len() as int);
            assert(gend == src.len() || src[gend] == '\0');
            assert(tail_from(src, a));
            assert(lexed(src, self.tokens@));
        }
        if self.tokens.len() == 0 {
            Err(LexerError::EOFWithNoTokens)
        } else {
            Ok(self.tokens.len())
        }
    }
}

} // verus!
