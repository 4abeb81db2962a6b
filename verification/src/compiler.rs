//! The compiler: syntax tree to instructions, in two passes. The first pass
//! assigns every label the index of the instruction after it; the second
//! flattens arguments into words, resolving names to label addresses or to
//! freshly allocated constant-pool slots. If a label `main` exists, a call
//! to it is prepended and every label address accounts for the shift.

use vstd::prelude::*;
use crate::instruction::{Instruction, InstructionType};
use crate::lexer::NumberType;
use crate::parser::{inst_wf, leaf_wf, top_wf, ASTNode};
use crate::word::Word;

verus! {

/// What can stop the compiler.
#[derive(Debug, Clone, Copy, PartialEq, Eq, Structural)]
pub enum CompilerError {
    /// A syntax-tree node of a kind not allowed as an instruction argument.
    UnexpectedArgument,
}

/// What a name resolves to: a label's instruction index or a constant-pool
/// slot.
#[derive(Debug, Clone, Copy, PartialEq, Eq, Structural)]
pub enum SymbolValue {
    Label(u16),
    Variable(u16),
}

/// First-match lookup in the symbol table.
pub open spec fn lookup(table: Seq<(String, SymbolValue)>, name: Seq<char>) -> Option<SymbolValue>
    decreases table.len(),
{
    if table.len() == 0 {
        None
    } else if table[0].0@ == name {
        Some(table[0].1)
    } else {
        lookup(table.drop_first(), name)
    }
}

/// The table invariant: names are distinct, every variable slot lies below
/// the next free one, and no two variables share a slot.
pub open spec fn table_wf(table: Seq<(String, SymbolValue)>, pool_next: int) -> bool {
    &&& forall|i: int, j: int|
        0 <= i < j < table.len() ==> (#[trigger] table[i]).0@ != (#[trigger] table[j]).0@
    &&& forall|i: int|
        0 <= i < table.len() ==> ((#[trigger] table[i]).1 matches SymbolValue::Variable(v) ==> (
        v as int) < pool_next)
    &&& forall|i: int, j: int|
        (0 <= i < j < table.len() && (#[trigger] table[i]).1 is Variable && (
        #[trigger] table[j]).1 is Variable) ==> table[i].1->Variable_0 != table[j].1->Variable_0
}

/// Distinct names never share a constant-pool slot: resolving two different
/// names to variables gives two different slots.
pub proof fn lemma_distinct_variables_distinct_slots(
    table: Seq<(String, SymbolValue)>,
    pool_next: int,
    a: Seq<char>,
    b: Seq<char>,
)
    requires
        table_wf(table, pool_next),
        a != b,
        lookup(table, a) matches Some(SymbolValue::Variable(_)),
        lookup(table, b) matches Some(SymbolValue::Variable(_)),
    ensures
        lookup(table, a)->Some_0->Variable_0 != lookup(table, b)->Some_0->Variable_0,
{
    let i = lookup_index(table, a);
    let j = lookup_index(table, b);
    lemma_lookup_at_index(table, a);
    lemma_lookup_at_index(table, b);
    assert(i != j) by {
        if i == j {
            assert(table[i].0@ == a && table[j].0@ == b);
        }
    }
    if i < j {
        assert(table[i].1 is Variable && table[j].1 is Variable);
    } else {
        assert(table[j].1 is Variable && table[i].1 is Variable);
    }
}

/// The index of the entry a successful lookup reads.
pub open spec fn lookup_index(table: Seq<(String, SymbolValue)>, name: Seq<char>) -> int
    decreases table.len(),
{
    if table.len() == 0 {
        0
    } else if table[0].0@ == name {
        0
    } else {
        1 + lookup_index(table.drop_first(), name)
    }
}

/// A successful lookup reads the entry at its index.
proof fn lemma_lookup_at_index(table: Seq<(String, SymbolValue)>, name: Seq<char>)
    requires
        lookup(table, name) is Some,
    ensures
        0 <= lookup_index(table, name) < table.len(),
        table[lookup_index(table, name)].0@ == name,
        table[lookup_index(table, name)].1 == lookup(table, name)->Some_0,
    decreases table.len(),
{
    if table.len() > 0 && table[0].0@ != name {
        lemma_lookup_at_index(table.drop_first(), name);
        assert(table.drop_first()[lookup_index(table.drop_first(), name)] == table[1
            + lookup_index(table.drop_first(), name)]);
    }
}

/// How many instructions a node emits.
pub open spec fn node_weight(n: ASTNode) -> int {
    match n {
        ASTNode::Instruction(_, _) => 1,
        ASTNode::Label(_, body) => body@.len() as int,
        _ => 0,
    }
}

/// How many instructions the first `upto` nodes emit.
pub open spec fn flat_count(nodes: Seq<ASTNode>, upto: int) -> int
    decreases upto,
{
    if upto <= 0 {
        0
    } else {
        flat_count(nodes, upto - 1) + node_weight(nodes[upto - 1])
    }
}

/// The opcodes a node emits, in order.
pub open spec fn node_ops(n: ASTNode) -> Seq<InstructionType> {
    match n {
        ASTNode::Instruction(tt, _) => seq![tt],
        ASTNode::Label(_, body) => body@.map_values(|b: ASTNode| b->Instruction_0),
        _ => Seq::empty(),
    }
}

/// The opcodes the first `upto` nodes emit.
pub open spec fn flat_ops(nodes: Seq<ASTNode>, upto: int) -> Seq<InstructionType>
    decreases upto,
{
    if upto <= 0 {
        Seq::empty()
    } else {
        flat_ops(nodes, upto - 1) + node_ops(nodes[upto - 1])
    }
}

/// How many of the first `upto` arguments resolve a name — a `Variable`,
/// or a stray `Label` leaf: each may cost one fresh constant-pool slot.
pub open spec fn count_var_leaves(args: Seq<ASTNode>, upto: int) -> int
    decreases upto,
{
    if upto <= 0 {
        0
    } else {
        count_var_leaves(args, upto - 1) + if args[upto - 1] is Variable || args[upto - 1]
            is Label {
            1int
        } else {
            0int
        }
    }
}

/// The `Variable` arguments of one instruction node.
pub open spec fn inst_var_count(n: ASTNode) -> int {
    match n {
        ASTNode::Instruction(_, args) => count_var_leaves(args@, args@.len() as int),
        _ => 0,
    }
}

/// The `Variable` arguments of a label body's first `upto` instructions.
pub open spec fn sum_body_vars(body: Seq<ASTNode>, upto: int) -> int
    decreases upto,
{
    if upto <= 0 {
        0
    } else {
        sum_body_vars(body, upto - 1) + inst_var_count(body[upto - 1])
    }
}

/// The `Variable` arguments a top-level node holds.
pub open spec fn node_var_count(n: ASTNode) -> int {
    match n {
        ASTNode::Instruction(_, args) => count_var_leaves(args@, args@.len() as int),
        ASTNode::Label(_, body) => sum_body_vars(body@, body@.len() as int),
        _ => 0,
    }
}

/// The `Variable` arguments of the tree's first `upto` nodes: an upper
/// bound on the constant-pool slots compiling them can take.
pub open spec fn tree_var_count(nodes: Seq<ASTNode>, upto: int) -> int
    decreases upto,
{
    if upto <= 0 {
        0
    } else {
        tree_var_count(nodes, upto - 1) + node_var_count(nodes[upto - 1])
    }
}

proof fn lemma_count_var_leaves_nonneg(args: Seq<ASTNode>, upto: int)
    ensures
        count_var_leaves(args, upto) >= 0,
        forall|k: int|
            0 <= k <= upto ==> #[trigger] count_var_leaves(args, k) <= count_var_leaves(
                args,
                upto,
            ),
    decreases upto,
{
    if upto > 0 {
        lemma_count_var_leaves_nonneg(args, upto - 1);
    }
}

proof fn lemma_inst_var_nonneg(n: ASTNode)
    ensures
        inst_var_count(n) >= 0,
{
    match n {
        ASTNode::Instruction(_, args) => {
            lemma_count_var_leaves_nonneg(args@, args@.len() as int);
        },
        _ => {},
    }
}

proof fn lemma_sum_body_vars_nonneg(body: Seq<ASTNode>, upto: int)
    ensures
        sum_body_vars(body, upto) >= 0,
        forall|k: int|
            0 <= k <= upto ==> #[trigger] sum_body_vars(body, k) <= sum_body_vars(body, upto),
    decreases upto,
{
    if upto > 0 {
        lemma_sum_body_vars_nonneg(body, upto - 1);
        lemma_inst_var_nonneg(body[upto - 1]);
    }
}

proof fn lemma_node_var_nonneg(n: ASTNode)
    ensures
        node_var_count(n) >= 0,
        inst_var_count(n) >= 0,
{
    match n {
        ASTNode::Instruction(_, args) => {
            lemma_count_var_leaves_nonneg(args@, args@.len() as int);
        },
        ASTNode::Label(_, body) => {
            lemma_sum_body_vars_nonneg(body@, body@.len() as int);
        },
        _ => {},
    }
}

/// The count over a longer prefix of the tree is at least the count so
/// far.
proof fn lemma_tree_var_monotone(nodes: Seq<ASTNode>, a: int, b: int)
    requires
        a <= b,
    ensures
        tree_var_count(nodes, a) <= tree_var_count(nodes, b),
    decreases b - a,
{
    if a < b {
        lemma_tree_var_monotone(nodes, a, b - 1);
        lemma_node_var_nonneg(nodes[b - 1]);
    }
}

/// Whether some node labels `main`.
pub open spec fn has_main_label(nodes: Seq<ASTNode>) -> bool {
    exists|k: int|
        0 <= k < nodes.len() && (#[trigger] nodes[k]) is Label && nodes[k]->Label_0@ == "main"@
}

/// The label names among the nodes are pairwise distinct.
pub open spec fn distinct_labels(nodes: Seq<ASTNode>) -> bool {
    forall|i: int, j: int|
        (0 <= i < j < nodes.len() && (#[trigger] nodes[i]) is Label && (#[trigger] nodes[j])
            is Label) ==> nodes[i]->Label_0@ != nodes[j]->Label_0@
}

/// Counting nodes never counts backwards.
proof fn lemma_flat_count_monotone(nodes: Seq<ASTNode>, a: int, b: int)
    requires
        0 <= a <= b,
    ensures
        flat_count(nodes, a) <= flat_count(nodes, b),
        flat_count(nodes, a) >= 0,
    decreases b - a + a,
{
    if a > 0 && a == b {
        lemma_flat_count_monotone(nodes, a - 1, a - 1);
    }
    if a < b {
        lemma_flat_count_monotone(nodes, a, b - 1);
    }
}

/// A name that resolves keeps resolving, to the same value, after the
/// table grows at its end.
proof fn lemma_lookup_push(table: Seq<(String, SymbolValue)>, p: (String, SymbolValue), name: Seq<char>)
    ensures
        lookup(table, name) is Some ==> lookup(table.push(p), name) == lookup(table, name),
        lookup(table, name) is None && p.0@ != name ==> lookup(table.push(p), name) is None,
        lookup(table, name) is None && p.0@ == name ==> lookup(table.push(p), name) == Some(p.1),
    decreases table.len(),
{
    if table.len() == 0 {
        assert(table.push(p)[0] == p);
        assert(table.push(p).drop_first() =~= Seq::<(String, SymbolValue)>::empty());
        assert(lookup(Seq::<(String, SymbolValue)>::empty(), name) is None);
    } else {
        assert(table.push(p)[0] == table[0]);
        assert(table.push(p).drop_first() =~= table.drop_first().push(p));
        lemma_lookup_push(table.drop_first(), p, name);
    }
}

/// In a table of distinct names, looking an entry's name up finds exactly
/// that entry.
proof fn lemma_lookup_index(table: Seq<(String, SymbolValue)>, i: int)
    requires
        0 <= i < table.len(),
        forall|a: int, b: int|
            0 <= a < b < table.len() ==> (#[trigger] table[a]).0@ != (#[trigger] table[b]).0@,
    ensures
        lookup(table, table[i].0@) == Some(table[i].1),
    decreases table.len(),
{
    if i > 0 {
        assert(table[0].0@ != table[i].0@);
        assert(table.drop_first()[i - 1] == table[i]);
        assert forall|a: int, b: int|
            0 <= a < b < table.drop_first().len() implies (#[trigger] table.drop_first()[a]).0@
            != (#[trigger] table.drop_first()[b]).0@ by {
            assert(table.drop_first()[a] == table[a + 1]);
            assert(table.drop_first()[b] == table[b + 1]);
        }
        lemma_lookup_index(table.drop_first(), i - 1);
    }
}

/// The compiler's state across its passes.
#[allow(non_snake_case)]
pub struct Compiler {
    /// Resolved names: labels and constant-pool variables.
    pub symbol_table: Vec<(String, SymbolValue)>,
    /// The syntax tree under compilation.
    pub ASTnodes: Vec<ASTNode>,
    /// The node cursor.
    pub ic: usize,
    /// The instruction counter of the first pass.
    pub instruction_index: usize,
    /// The next free constant-pool slot.
    pub const_pool_index: usize,
}

impl Compiler {
    /// A compiler over the given syntax tree.
    pub fn new(ASTnodes: Vec<ASTNode>) -> (r: Self)
        ensures
            r.ASTnodes == ASTnodes,
            r.symbol_table@.len() == 0,
            r.ic == 0,
            r.const_pool_index == 0,
    {
        Compiler {
            symbol_table: Vec::new(),
            ASTnodes,
            ic: 0,
            instruction_index: 0,
            const_pool_index: 0,
        }
    }

    /// Step to the next node.
    pub fn advance(&mut self)
        ensures
            final(self).symbol_table == old(self).symbol_table,
            final(self).ASTnodes == old(self).ASTnodes,
            final(self).const_pool_index == old(self).const_pool_index,
            old(self).ic < old(self).ASTnodes@.len() ==> final(self).ic == old(self).ic + 1,
            old(self).ic >= old(self).ASTnodes@.len() ==> final(self).ic == old(self).ic,
    {
        if self.ic < self.ASTnodes.len() {
            self.ic = self.ic + 1;
        }
    }

    /// Find a name in the symbol table.
    fn find_symbol(&self, name: &str) -> (r: Option<SymbolValue>)
        ensures
            r == lookup(self.symbol_table@, name@),
    {
        let mut j: usize = 0;
        proof {
            assert(self.symbol_table@.skip(0) =~= self.symbol_table@);
        }
        while j < self.symbol_table.len()
            invariant
                j <= self.symbol_table@.len(),
                lookup(self.symbol_table@, name@) == lookup(
                    self.symbol_table@.skip(j as int),
                    name@,
                ),
            decreases self.symbol_table@.len() - j,
        {
            let entry_name = &self.symbol_table[j].0;
            let same = entry_name.eq(&name.to_owned());
            proof {
                assert(self.symbol_table@.skip(j as int)[0] == self.symbol_table@[j as int]);
                assert(self.symbol_table@.skip(j as int).drop_first() =~= self.symbol_table@.skip(
                    j + 1,
                ));
            }
            if same {
                return Some(self.symbol_table[j].1);
            }
            j = j + 1;
        }
        None
    }

    /// Resolve a name: a label's address or a known variable's slot comes
    /// back as it stands, and an unknown name is given the next free
    /// constant-pool slot.
    pub fn get_or_allocate_variable_address(&mut self, name: &str) -> (r: Result<u16, CompilerError>)
        requires
            table_wf(old(self).symbol_table@, old(self).const_pool_index as int),
        ensures
            final(self).ASTnodes == old(self).ASTnodes,
            final(self).ic == old(self).ic,
            final(self).instruction_index == old(self).instruction_index,
            table_wf(final(self).symbol_table@, final(self).const_pool_index as int),
            old(self).const_pool_index <= final(self).const_pool_index <= old(
                self,
            ).const_pool_index + 1,
            forall|nm: Seq<char>|
                #[trigger] lookup(old(self).symbol_table@, nm) is Some ==> lookup(
                    final(self).symbol_table@,
                    nm,
                ) == lookup(old(self).symbol_table@, nm),
            forall|nm: Seq<char>|
                #[trigger] lookup(old(self).symbol_table@, nm) is None ==> (lookup(
                    final(self).symbol_table@,
                    nm,
                ) is None || lookup(final(self).symbol_table@, nm)->Some_0 is Variable),
            match lookup(old(self).symbol_table@, name@) {
                Some(sv) => final(self).symbol_table == old(self).symbol_table
                    && final(self).const_pool_index == old(self).const_pool_index && (r matches Ok(
                    a,
                ) && a == (match sv {
                    SymbolValue::Label(a) => a,
                    SymbolValue::Variable(v) => v,
                })),
                None => if old(self).const_pool_index < 65535 {
                    &&& r matches Ok(a) && a == old(self).const_pool_index as u16
                    &&& final(self).const_pool_index == old(self).const_pool_index + 1
                    &&& final(self).symbol_table@.len() == old(self).symbol_table@.len() + 1
                    &&& final(self).symbol_table@[old(self).symbol_table@.len() as int].0@
                        == name@
                    &&& final(self).symbol_table@[old(self).symbol_table@.len() as int].1
                        == SymbolValue::Variable(old(self).const_pool_index as u16)
                    &&& final(self).symbol_table@.take(old(self).symbol_table@.len() as int)
                        == old(self).symbol_table@
                    &&& lookup(final(self).symbol_table@, name@) == Some(
                        SymbolValue::Variable(old(self).const_pool_index as u16),
                    )
                } else {
                    r == Err::<u16, CompilerError>(CompilerError::UnexpectedArgument)
                        && final(self).symbol_table == old(self).symbol_table
                        && final(self).const_pool_index == old(self).const_pool_index
                },
            },
    {
        match self.find_symbol(name) {
            Some(SymbolValue::Label(a)) => Ok(a),
            Some(SymbolValue::Variable(v)) => Ok(v),
            None => {
                if self.const_pool_index >= 65535 {
                    return Err(CompilerError::UnexpectedArgument);
                }
                let addr = self.const_pool_index as u16;
                let entry = (name.to_owned(), SymbolValue::Variable(addr));
                let ghost t0 = self.symbol_table@;
                let ghost p = entry;
                self.symbol_table.push(entry);
                self.const_pool_index = self.const_pool_index + 1;
                proof {
                    lemma_lookup_push(t0, p, name@);
                    assert forall|nm: Seq<char>| #[trigger] lookup(t0, nm) is Some implies lookup(
                        self.symbol_table@,
                        nm,
                    ) == lookup(t0, nm) by {
                        lemma_lookup_push(t0, p, nm);
                    }
                    assert forall|nm: Seq<char>| #[trigger] lookup(t0, nm) is None implies (
                    lookup(self.symbol_table@, nm) is None || lookup(
                        self.symbol_table@,
                        nm,
                    )->Some_0 is Variable) by {
                        lemma_lookup_push(t0, p, nm);
                    }
                    assert(self.symbol_table@.take(t0.len() as int) =~= t0);
                    assert forall|i: int, j: int|
                        0 <= i < j < self.symbol_table@.len() implies (
                    #[trigger] self.symbol_table@[i]).0@ != (
                    #[trigger] self.symbol_table@[j]).0@ by {
                        if j < t0.len() {
                        } else {
                            assert(self.symbol_table@[j] == p);
                            assert(self.symbol_table@[i] == t0[i]);
                            if t0[i].0@ == name@ {
                                lemma_lookup_index(t0, i);
                                assert(false);
                            }
                        }
                    }
                }
                Ok(addr)
            },
        }
    }

    /// First pass: walk the tree, give every label the index its first
    /// instruction will have in the emitted stream, the prepended call to
    /// `main` already accounted for.
    pub fn generate_label_table(&mut self)
        requires
            old(self).symbol_table@.len() == 0,
            old(self).ic == 0,
            forall|k: int|
                0 <= k < old(self).ASTnodes@.len() ==> top_wf(#[trigger] old(self).ASTnodes@[k]),
            distinct_labels(old(self).ASTnodes@),
            flat_count(old(self).ASTnodes@, old(self).ASTnodes@.len() as int) <= 65534,
        ensures
            final(self).ASTnodes == old(self).ASTnodes,
            final(self).ic == 0,
            final(self).const_pool_index == old(self).const_pool_index,
            table_wf(final(self).symbol_table@, final(self).const_pool_index as int),
            forall|i: int|
                0 <= i < final(self).symbol_table@.len() ==> (
                #[trigger] final(self).symbol_table@[i]).1 is Label,
            forall|i: int|
                0 <= i < final(self).symbol_table@.len() ==> exists|m: int|
                    0 <= m < final(self).ASTnodes@.len()
                        && (#[trigger] final(self).ASTnodes@[m]) is Label
                        && (#[trigger] final(self).symbol_table@[i]).0@
                        == final(self).ASTnodes@[m]->Label_0@,
            final(self).instruction_index == 0,
            forall|k: int|
                0 <= k < final(self).ASTnodes@.len() && (#[trigger] final(self).ASTnodes@[k])
                    is Label ==> lookup(
                    final(self).symbol_table@,
                    final(self).ASTnodes@[k]->Label_0@,
                ) == Some(
                    SymbolValue::Label(
                        (flat_count(final(self).ASTnodes@, k) + (if has_main_label(
                            final(self).ASTnodes@,
                        ) {
                            1int
                        } else {
                            0int
                        })) as u16,
                    ),
                ),
    {
        let ghost nodes = self.ASTnodes@;
        let mut has_main = false;
        let mut k: usize = 0;
        while k < self.ASTnodes.len()
            invariant
                k <= self.ASTnodes@.len(),
                *self == *old(self),
                has_main <==> exists|m: int|
                    0 <= m < k && (#[trigger] self.ASTnodes@[m]) is Label
                        && self.ASTnodes@[m]->Label_0@ == "main"@,
            decreases self.ASTnodes@.len() - k,
        {
            match &self.ASTnodes[k] {
                ASTNode::Label(name, _) => {
                    if name.eq(&"main".to_owned()) {
                        has_main = true;
                        proof {
                            assert((self.ASTnodes@[k as int]) is Label
                                && self.ASTnodes@[k as int]->Label_0@ == "main"@);
                        }
                    }
                },
                _ => {},
            }
            k = k + 1;
        }
        proof {
            assert(has_main == has_main_label(nodes));
        }
        let shift: usize = if has_main {
            1
        } else {
            0
        };
        let mut count: usize = 0;
        let mut k: usize = 0;
        self.instruction_index = 0;
        proof {
            lemma_flat_count_monotone(nodes, 0, nodes.len() as int);
        }
        while k < self.ASTnodes.len()
            invariant
                k <= self.ASTnodes@.len(),
                self.ASTnodes == old(self).ASTnodes,
                self.ic == old(self).ic,
                self.const_pool_index == old(self).const_pool_index,
                self.instruction_index == count,
                nodes == self.ASTnodes@,
                forall|m: int| 0 <= m < nodes.len() ==> top_wf(#[trigger] nodes[m]),
                distinct_labels(nodes),
                flat_count(nodes, nodes.len() as int) <= 65534,
                shift == (if has_main_label(nodes) { 1int } else { 0int }),
                count == flat_count(nodes, k as int),
                count + shift <= 65535,
                forall|i: int|
                    0 <= i < self.symbol_table@.len() ==> (#[trigger] self.symbol_table@[i]).1
                        is Label,
                forall|i: int|
                    0 <= i < self.symbol_table@.len() ==> exists|m: int|
                        0 <= m < k && (#[trigger] nodes[m]) is Label && (
                        #[trigger] self.symbol_table@[i]).0@ == nodes[m]->Label_0@,
                forall|a: int, b: int|
                    0 <= a < b < self.symbol_table@.len() ==> (
                    #[trigger] self.symbol_table@[a]).0@ != (
                    #[trigger] self.symbol_table@[b]).0@,
                forall|m: int|
                    0 <= m < k && (#[trigger] nodes[m]) is Label ==> lookup(
                        self.symbol_table@,
                        nodes[m]->Label_0@,
                    ) == Some(
                        SymbolValue::Label((flat_count(nodes, m) + shift as int) as u16),
                    ),
            decreases self.ASTnodes@.len() - k,
        {
            proof {
                lemma_flat_count_monotone(nodes, k + 1, nodes.len() as int);
                lemma_flat_count_monotone(nodes, k as int, k + 1);
            }
            let ghost t0 = self.symbol_table@;
            let node_is_label: bool;
            let weight: usize;
            match &self.ASTnodes[k] {
                ASTNode::Instruction(_, _) => {
                    node_is_label = false;
                    weight = 1;
                },
                ASTNode::Label(name, body) => {
                    node_is_label = true;
                    weight = body.len();
                    let addr = (count + shift) as u16;
                    let entry = (name.clone(), SymbolValue::Label(addr));
                    let ghost p = entry;
                    proof {
                        if lookup(t0, name@) is Some {
                            let i = choose|i: int|
                                0 <= i < t0.len() && (#[trigger] t0[i]).0@ == name@;
                            assert(exists|i: int|
                                0 <= i < t0.len() && (#[trigger] t0[i]).0@ == name@) by {
                                lemma_lookup_some_index(t0, name@);
                            }
                        }
                    }
                    self.symbol_table.push(entry);
                    proof {
                        assert(p.0@ == nodes[k as int]->Label_0@);
                        // the new name differs from every recorded one
                        assert forall|i: int| 0 <= i < t0.len() implies (#[trigger] t0[i]).0@
                            != p.0@ by {
                            let m = choose|m: int|
                                0 <= m < k && (#[trigger] nodes[m]) is Label && t0[i].0@
                                    == nodes[m]->Label_0@;
                            assert(nodes[m] is Label && nodes[k as int] is Label);
                        }
                        lemma_lookup_push_all(t0, p);
                        assert(lookup(self.symbol_table@, p.0@) == Some(p.1)) by {
                            lemma_lookup_push(t0, p, p.0@);
                            if lookup(t0, p.0@) is Some {
                                lemma_lookup_some_index(t0, p.0@);
                                let i = choose|i: int|
                                    0 <= i < t0.len() && (#[trigger] t0[i]).0@ == p.0@;
                                assert(false);
                            }
                        }
                        assert forall|i: int|
                            0 <= i < self.symbol_table@.len() implies exists|m: int|
                            0 <= m < k + 1 && (#[trigger] nodes[m]) is Label && (
                            #[trigger] self.symbol_table@[i]).0@ == nodes[m]->Label_0@ by {
                            if i < t0.len() {
                                let m = choose|m: int|
                                    0 <= m < k && (#[trigger] nodes[m]) is Label && t0[i].0@
                                        == nodes[m]->Label_0@;
                                assert(0 <= m < k + 1 && nodes[m] is Label
                                    && self.symbol_table@[i].0@ == nodes[m]->Label_0@);
                            } else {
                                assert(0 <= k < k + 1 && nodes[k as int] is Label
                                    && self.symbol_table@[i].0@ == nodes[k as int]->Label_0@);
                            }
                        }
                    }
                },
                _ => {
                    node_is_label = false;
                    weight = 0;
                    proof {
                        assert(top_wf(nodes[k as int]));
                        assert(false);
                    }
                },
            }
            count = count + weight;
            self.instruction_index = count;
            k = k + 1;
        }
        self.ic = 0;
        self.instruction_index = 0;
    }

    /// Flatten one argument into words: a number is itself, a string is its
    /// length followed by its characters, and a name resolves to a label
    /// address or a constant-pool slot. An instruction node is no argument.
    pub fn parse_arg(&mut self, arg: &ASTNode) -> (r: Result<Vec<Word>, CompilerError>)
        requires
            table_wf(old(self).symbol_table@, old(self).const_pool_index as int),
        ensures
            final(self).ASTnodes == old(self).ASTnodes,
            final(self).ic == old(self).ic,
            table_wf(final(self).symbol_table@, final(self).const_pool_index as int),
            old(self).const_pool_index <= final(self).const_pool_index <= old(
                self,
            ).const_pool_index + 1,
            forall|nm: Seq<char>|
                #[trigger] lookup(old(self).symbol_table@, nm) is Some ==> lookup(
                    final(self).symbol_table@,
                    nm,
                ) == lookup(old(self).symbol_table@, nm),
            forall|nm: Seq<char>|
                #[trigger] lookup(old(self).symbol_table@, nm) is None ==> (lookup(
                    final(self).symbol_table@,
                    nm,
                ) is None || lookup(final(self).symbol_table@, nm)->Some_0 is Variable),
            match *arg {
                ASTNode::Number(num) => final(self).symbol_table == old(self).symbol_table
                    && final(self).const_pool_index == old(self).const_pool_index && (match num {
                    NumberType::U16(v) => r matches Ok(ws) && ws@ == seq![Word::U16(v)],
                    NumberType::F16(b) => r matches Ok(ws) && ws@ == seq![Word::F16(b)],
                }),
                ASTNode::StringLiteral(st) => final(self).symbol_table == old(self).symbol_table
                    && final(self).const_pool_index == old(self).const_pool_index
                    && (r matches Ok(ws) && ws@.len() == st@.len() + 1 && ws@[0] == Word::U16(
                    st@.len() as u16,
                ) && (forall|i: int| 0 <= i < st@.len() ==> ws@[i + 1] == Word::Char(st@[i]))),
                ASTNode::Variable(x) => Self::resolved_arg(*old(self), *final(self), x@, r),
                ASTNode::Label(x, _) => Self::resolved_arg(*old(self), *final(self), x@, r),
                ASTNode::Instruction(_, _) => r == Err::<Vec<Word>, CompilerError>(
                    CompilerError::UnexpectedArgument,
                ) && final(self).symbol_table == old(self).symbol_table
                    && final(self).const_pool_index == old(self).const_pool_index,
            },
    {
        match arg {
            ASTNode::Variable(x) => {
                match self.get_or_allocate_variable_address(x.as_str()) {
                    Ok(address) => {
                        let ws = vec![Word::U16(address)];
                        proof {
                            assert(ws@ =~= seq![Word::U16(address)]);
                        }
                        Ok(ws)
                    },
                    Err(e) => Err(e),
                }
            },
            ASTNode::Label(x, _) => {
                match self.get_or_allocate_variable_address(x.as_str()) {
                    Ok(address) => {
                        let ws = vec![Word::U16(address)];
                        proof {
                            assert(ws@ =~= seq![Word::U16(address)]);
                        }
                        Ok(ws)
                    },
                    Err(e) => Err(e),
                }
            },
            ASTNode::StringLiteral(x) => Ok(flatten_string(x)),
            ASTNode::Number(num) => {
                match num {
                    NumberType::U16(u) => {
                        let ws = vec![Word::U16(*u)];
                        proof {
                            assert(ws@ =~= seq![Word::U16(*u)]);
                        }
                        Ok(ws)
                    },
                    NumberType::F16(b) => {
                        let ws = vec![Word::F16(*b)];
                        proof {
                            assert(ws@ =~= seq![Word::F16(*b)]);
                        }
                        Ok(ws)
                    },
                }
            },
            ASTNode::Instruction(_, _) => Err(CompilerError::UnexpectedArgument),
        }
    }

    /// Compile one instruction: flatten its arguments, in order, into the
    /// operand words.
    pub fn compile_instruction(&mut self, it: InstructionType, args: &Vec<ASTNode>) -> (r: Result<
        Instruction,
        CompilerError,
    >)
        requires
            table_wf(old(self).symbol_table@, old(self).const_pool_index as int),
        ensures
            final(self).ASTnodes == old(self).ASTnodes,
            final(self).ic == old(self).ic,
            table_wf(final(self).symbol_table@, final(self).const_pool_index as int),
            old(self).const_pool_index <= final(self).const_pool_index,
            forall|nm: Seq<char>|
                #[trigger] lookup(old(self).symbol_table@, nm) is Some ==> lookup(
                    final(self).symbol_table@,
                    nm,
                ) == lookup(old(self).symbol_table@, nm),
            forall|nm: Seq<char>|
                #[trigger] lookup(old(self).symbol_table@, nm) is None ==> (lookup(
                    final(self).symbol_table@,
                    nm,
                ) is None || lookup(final(self).symbol_table@, nm)->Some_0 is Variable),
            final(self).const_pool_index <= old(self).const_pool_index + count_var_leaves(
                args@,
                args@.len() as int,
            ),
            r is Err ==> r->Err_0 == CompilerError::UnexpectedArgument,
            (forall|j: int| 0 <= j < args@.len() ==> leaf_wf(#[trigger] args@[j])) && old(
                self,
            ).const_pool_index + count_var_leaves(args@, args@.len() as int) <= 65535 ==> r is Ok,
            r matches Ok(inst) ==> inst.tt == it && inst.canonical(),
            args@.len() == 0 ==> (r matches Ok(inst) && inst.values is None),
            args@.len() == 1 && args@[0] is Number ==> (r matches Ok(inst) && inst.args_spec()
                == (match args@[0]->Number_0 {
                NumberType::U16(v) => seq![Word::U16(v)],
                NumberType::F16(b) => seq![Word::F16(b)],
            })),
            args@.len() == 1 && args@[0] is Variable ==> Self::resolved_inst(
                *old(self),
                *final(self),
                args@[0]->Variable_0@,
                r,
            ),
            args@.len() == 1 && args@[0] is StringLiteral ==> (r matches Ok(inst) && ({
                let st = args@[0]->StringLiteral_0@;
                &&& inst.args_spec().len() == st.len() + 1
                &&& inst.args_spec()[0] == Word::U16(st.len() as u16)
                &&& forall|i: int| 0 <= i < st.len() ==> inst.args_spec()[i + 1] == Word::Char(st[i])
            })),
            args@.len() == 2 && args@[0] is Number && args@[1] is StringLiteral ==> (r matches Ok(
                inst,
            ) && ({
                // the count-and-inline-name form: the numeric word, then the
                // string's length, then its characters
                let st = args@[1]->StringLiteral_0@;
                &&& inst.args_spec().len() == st.len() + 2
                &&& inst.args_spec()[0] == (match args@[0]->Number_0 {
                    NumberType::U16(v) => Word::U16(v),
                    NumberType::F16(b) => Word::F16(b),
                })
                &&& inst.args_spec()[1] == Word::U16(st.len() as u16)
                &&& forall|i: int| 0 <= i < st.len() ==> inst.args_spec()[i + 2] == Word::Char(st[i])
            })),
    {
        let mut flattened: Vec<Word> = Vec::new();
        let mut k: usize = 0;
        let ghost pre = *old(self);
        while k < args.len()
            invariant
                k <= args@.len(),
                pre == *old(self),
                self.ASTnodes == pre.ASTnodes,
                self.ic == pre.ic,
                table_wf(self.symbol_table@, self.const_pool_index as int),
                pre.const_pool_index <= self.const_pool_index,
                forall|nm: Seq<char>|
                    #[trigger] lookup(pre.symbol_table@, nm) is Some ==> lookup(
                        self.symbol_table@,
                        nm,
                    ) == lookup(pre.symbol_table@, nm),
                forall|nm: Seq<char>|
                    #[trigger] lookup(pre.symbol_table@, nm) is None ==> (lookup(
                        self.symbol_table@,
                        nm,
                    ) is None || lookup(self.symbol_table@, nm)->Some_0 is Variable),
                args@.len() == 1 ==> k == 0,
                k == 0 ==> *self == *old(self),
                args@.len() == 0 ==> flattened@.len() == 0,
                k == 0 ==> flattened@.len() == 0,
                args@.len() == 2 && args@[0] is Number && k == 1 ==> flattened@ == seq![
                    (match args@[0]->Number_0 {
                        NumberType::U16(v) => Word::U16(v),
                        NumberType::F16(b) => Word::F16(b),
                    }),
                ],
                args@.len() == 2 && args@[0] is Number && args@[1] is StringLiteral && k == 2
                    ==> ({
                    let st = args@[1]->StringLiteral_0@;
                    &&& flattened@.len() == st.len() + 2
                    &&& flattened@[0] == (match args@[0]->Number_0 {
                        NumberType::U16(v) => Word::U16(v),
                        NumberType::F16(b) => Word::F16(b),
                    })
                    &&& flattened@[1] == Word::U16(st.len() as u16)
                    &&& forall|i: int| 0 <= i < st.len() ==> flattened@[i + 2] == Word::Char(st[i])
                }),
                self.const_pool_index <= pre.const_pool_index + count_var_leaves(
                    args@,
                    k as int,
                ),
            decreases args@.len() - k,
        {
            proof {
                lemma_count_var_leaves_nonneg(args@, args@.len() as int);
            }
            let words = match self.parse_arg(&args[k]) {
                Ok(ws) => ws,
                Err(e) => {
                    proof {
                        if (forall|j2: int| 0 <= j2 < args@.len() ==> leaf_wf(
                            #[trigger] args@[j2],
                        )) && pre.const_pool_index + count_var_leaves(
                            args@,
                            args@.len() as int,
                        ) <= 65535 {
                            assert(leaf_wf(args@[k as int]));
                            assert(count_var_leaves(args@, k + 1) == count_var_leaves(
                                args@,
                                k as int,
                            ) + 1);
                            assert(count_var_leaves(args@, k + 1) <= count_var_leaves(
                                args@,
                                args@.len() as int,
                            ));
                            assert(false);
                        }
                        assert(count_var_leaves(args@, k + 1) <= count_var_leaves(
                            args@,
                            args@.len() as int,
                        ));
                    }
                    return Err(e);
                },
            };
            let mut words = words;
            if args.len() == 1 {
                let inst = Instruction {
                    tt: it,
                    values: if words.len() == 0 {
                        None
                    } else {
                        Some(words)
                    },
                };
                return Ok(inst);
            }
            flattened.append(&mut words);
            k = k + 1;
        }
        let inst = Instruction {
            tt: it,
            values: if flattened.len() == 0 {
                None
            } else {
                Some(flattened)
            },
        };
        Ok(inst)
    }

    /// What compiling a single-name instruction does: the operand word is
    /// the resolved address or slot.
    pub open spec fn resolved_inst(
        pre: Self,
        post: Self,
        x: Seq<char>,
        r: Result<Instruction, CompilerError>,
    ) -> bool {
        match lookup(pre.symbol_table@, x) {
            Some(sv) => post.symbol_table == pre.symbol_table && post.const_pool_index
                == pre.const_pool_index && (r matches Ok(inst) && inst.args_spec() == seq![
                Word::U16(
                    match sv {
                        SymbolValue::Label(a) => a,
                        SymbolValue::Variable(v) => v,
                    },
                ),
            ]),
            None => if pre.const_pool_index < 65535 {
                &&& r matches Ok(inst)
                &&& inst.args_spec() == seq![Word::U16(pre.const_pool_index as u16)]
                &&& post.const_pool_index == pre.const_pool_index + 1
            } else {
                r == Err::<Instruction, CompilerError>(CompilerError::UnexpectedArgument)
            },
        }
    }

    /// Compile the whole tree: resolve labels, emit every instruction in
    /// order, and, when a label `main` exists, prepend a call to it. The
    /// emitted opcodes are exactly the tree's instructions in order, and
    /// every label resolves to the index its first instruction holds in
    /// the result.
    #[verifier::rlimit(100)]
    pub fn compile(&mut self) -> (r: Result<Vec<Instruction>, CompilerError>)
        requires
            old(self).symbol_table@.len() == 0,
            old(self).ic == 0,
            old(self).const_pool_index == 0,
            forall|k: int|
                0 <= k < old(self).ASTnodes@.len() ==> top_wf(#[trigger] old(self).ASTnodes@[k]),
            distinct_labels(old(self).ASTnodes@),
            flat_count(old(self).ASTnodes@, old(self).ASTnodes@.len() as int) <= 65534,
        ensures
            r is Err ==> r->Err_0 == CompilerError::UnexpectedArgument,
            tree_var_count(old(self).ASTnodes@, old(self).ASTnodes@.len() as int) <= 65535
                ==> r is Ok,
            r matches Ok(out) ==> ({
                let nodes = old(self).ASTnodes@;
                let shift = if has_main_label(nodes) {
                    1int
                } else {
                    0int
                };
                &&& out@.len() == flat_count(nodes, nodes.len() as int) + shift
                &&& out@.map_values(|q: Instruction| q.tt) == (if has_main_label(nodes) {
                    seq![InstructionType::INST_CALL] + flat_ops(nodes, nodes.len() as int)
                } else {
                    flat_ops(nodes, nodes.len() as int)
                })
                &&& forall|k: int|
                    0 <= k < nodes.len() && (#[trigger] nodes[k]) is Label ==> lookup(
                        final(self).symbol_table@,
                        nodes[k]->Label_0@,
                    ) == Some(SymbolValue::Label((flat_count(nodes, k) + shift) as u16))
                &&& (has_main_label(nodes) ==> (lookup(final(self).symbol_table@, "main"@)
                    matches Some(SymbolValue::Label(a)) && out@[0].model() == (
                InstructionType::INST_CALL,
                seq![Word::U16(a)],
                )))
            }),
    {
        let ghost nodes0 = self.ASTnodes@;
        let ghost shift: int = if has_main_label(nodes0) {
            1int
        } else {
            0int
        };
        self.generate_label_table();
        let ghost t1 = self.symbol_table@;
        let nodes = self.ASTnodes.split_off(0);
        proof {
            assert(nodes@ =~= nodes0);
        }
        let mut out: Vec<Instruction> = Vec::new();
        let mut k: usize = 0;
        while k < nodes.len()
            invariant
                k <= nodes@.len(),
                nodes@ == nodes0,
                nodes0 == old(self).ASTnodes@,
                forall|m: int| 0 <= m < nodes0.len() ==> top_wf(#[trigger] nodes0[m]),
                shift == (if has_main_label(nodes0) {
                    1int
                } else {
                    0int
                }),
                table_wf(self.symbol_table@, self.const_pool_index as int),
                forall|nm: Seq<char>|
                    #[trigger] lookup(t1, nm) is Some ==> lookup(self.symbol_table@, nm)
                        == lookup(t1, nm),
                forall|nm: Seq<char>|
                    #[trigger] lookup(t1, nm) is None ==> (lookup(self.symbol_table@, nm) is None
                        || lookup(self.symbol_table@, nm)->Some_0 is Variable),
                forall|m: int|
                    0 <= m < nodes0.len() && (#[trigger] nodes0[m]) is Label ==> lookup(
                        t1,
                        nodes0[m]->Label_0@,
                    ) == Some(SymbolValue::Label((flat_count(nodes0, m) + shift) as u16)),
                forall|i: int|
                    0 <= i < t1.len() ==> exists|m: int|
                        0 <= m < nodes0.len() && (#[trigger] nodes0[m]) is Label && (
                        #[trigger] t1[i]).0@ == nodes0[m]->Label_0@,
                out@.len() == flat_count(nodes0, k as int),
                out@.map_values(|q: Instruction| q.tt) == flat_ops(nodes0, k as int),
                self.const_pool_index <= tree_var_count(nodes0, k as int),
            decreases nodes@.len() - k,
        {
            proof {
                lemma_tree_var_monotone(nodes0, k + 1, nodes0.len() as int);
                lemma_node_var_nonneg(nodes0[k as int]);
            }
            match &nodes[k] {
                ASTNode::Instruction(it, iargs) => {
                    proof {
                        assert(top_wf(nodes0[k as int]));
                        assert(node_var_count(nodes0[k as int]) == count_var_leaves(
                            iargs@,
                            iargs@.len() as int,
                        ));
                    }
                    let ghost cp0 = self.const_pool_index as int;
                    let inst = match self.compile_instruction(*it, iargs) {
                        Ok(inst) => inst,
                        Err(e) => {
                            proof {
                                if tree_var_count(nodes0, nodes0.len() as int) <= 65535 {
                                    assert(inst_wf(nodes0[k as int]));
                                    assert(forall|j2: int|
                                        0 <= j2 < iargs@.len() ==> leaf_wf(#[trigger] iargs@[j2]));
                                    assert(tree_var_count(nodes0, k + 1) == tree_var_count(
                                        nodes0,
                                        k as int,
                                    ) + node_var_count(nodes0[k as int]));
                                    assert(cp0 + count_var_leaves(iargs@, iargs@.len() as int)
                                        <= 65535);
                                    assert(false);
                                }
                            }
                            return Err(e);
                        },
                    };
                    out.push(inst);
                    proof {
                        assert(out@.map_values(|q: Instruction| q.tt) =~= flat_ops(
                            nodes0,
                            k + 1,
                        ));
                    }
                },
                ASTNode::Label(_, body) => {
                    let mut j: usize = 0;
                    proof {
                        assert(body@.map_values(|b: ASTNode| b->Instruction_0).take(0) =~= Seq::<
                            InstructionType,
                        >::empty());
                        assert(out@.map_values(|q: Instruction| q.tt) + body@.map_values(
                            |b: ASTNode| b->Instruction_0,
                        ).take(0) =~= out@.map_values(|q: Instruction| q.tt));
                    }
                    while j < body.len()
                        invariant
                            j <= body@.len(),
                            nodes@ == nodes0,
                            nodes0 == old(self).ASTnodes@,
                            k < nodes0.len(),
                            nodes0[k as int] is Label,
                            nodes0[k as int]->Label_1@ == body@,
                            forall|m: int| 0 <= m < nodes0.len() ==> top_wf(#[trigger] nodes0[m]),
                            table_wf(self.symbol_table@, self.const_pool_index as int),
                            forall|nm: Seq<char>|
                                #[trigger] lookup(t1, nm) is Some ==> lookup(
                                    self.symbol_table@,
                                    nm,
                                ) == lookup(t1, nm),
                            forall|nm: Seq<char>|
                                #[trigger] lookup(t1, nm) is None ==> (lookup(
                                    self.symbol_table@,
                                    nm,
                                ) is None || lookup(self.symbol_table@, nm)->Some_0 is Variable),
                            out@.len() == flat_count(nodes0, k as int) + j,
                            out@.map_values(|q: Instruction| q.tt) == flat_ops(nodes0, k as int)
                                + body@.map_values(|b: ASTNode| b->Instruction_0).take(j as int),
                            self.const_pool_index <= tree_var_count(nodes0, k as int)
                                + sum_body_vars(body@, j as int),
                        decreases body@.len() - j,
                    {
                        proof {
                            assert(top_wf(nodes0[k as int]));
                            assert(inst_wf(body@[j as int]));
                            lemma_tree_var_monotone(nodes0, k + 1, nodes0.len() as int);
                            lemma_sum_body_vars_nonneg(body@, body@.len() as int);
                            assert(node_var_count(nodes0[k as int]) == sum_body_vars(
                                body@,
                                body@.len() as int,
                            ));
                            assert(sum_body_vars(body@, j + 1) == sum_body_vars(body@, j as int)
                                + inst_var_count(body@[j as int]));
                        }
                        match &body[j] {
                            ASTNode::Instruction(it, iargs) => {
                                let ghost it0 = *it;
                                proof {
                                    assert(inst_var_count(body@[j as int]) == count_var_leaves(
                                        iargs@,
                                        iargs@.len() as int,
                                    ));
                                }
                                let ghost cp0 = self.const_pool_index as int;
                                let inst = match self.compile_instruction(*it, iargs) {
                                    Ok(inst) => inst,
                                    Err(e) => {
                                        proof {
                                            if tree_var_count(nodes0, nodes0.len() as int)
                                                <= 65535 {
                                                assert(forall|j2: int|
                                                    0 <= j2 < iargs@.len() ==> leaf_wf(
                                                        #[trigger] iargs@[j2],
                                                    ));
                                                assert(tree_var_count(nodes0, k + 1)
                                                    == tree_var_count(nodes0, k as int)
                                                    + node_var_count(nodes0[k as int]));
                                                assert(cp0 + count_var_leaves(
                                                    iargs@,
                                                    iargs@.len() as int,
                                                ) <= 65535);
                                                assert(false);
                                            }
                                        }
                                        return Err(e);
                                    },
                                };
                                let ghost ob = out@;
                                out.push(inst);
                                proof {
                                    assert(inst.tt == body@[j as int]->Instruction_0);
                                    assert(out@ == ob.push(inst));
                                    assert(out@.map_values(|q: Instruction| q.tt)
                                        =~= ob.map_values(|q: Instruction| q.tt).push(inst.tt));
                                    assert(body@.map_values(|b: ASTNode| b->Instruction_0).take(
                                        j + 1,
                                    ) =~= body@.map_values(|b: ASTNode| b->Instruction_0).take(
                                        j as int,
                                    ).push(body@[j as int]->Instruction_0));
                                    assert(out@.map_values(|q: Instruction| q.tt) =~= flat_ops(
                                        nodes0,
                                        k as int,
                                    ) + body@.map_values(|b: ASTNode| b->Instruction_0).take(
                                        j + 1,
                                    ));
                                }
                            },
                            _ => {
                                proof {
                                    assert(false);
                                }
                                return Err(CompilerError::UnexpectedArgument);
                            },
                        }
                        j = j + 1;
                    }
                    proof {
                        assert(body@.map_values(|b: ASTNode| b->Instruction_0).take(
                            body@.len() as int,
                        ) =~= node_ops(nodes0[k as int]));
                        assert(out@.map_values(|q: Instruction| q.tt) =~= flat_ops(
                            nodes0,
                            k + 1,
                        ));
                        assert(node_var_count(nodes0[k as int]) == sum_body_vars(
                            body@,
                            body@.len() as int,
                        ));
                        assert(self.const_pool_index <= tree_var_count(nodes0, k + 1));
                    }
                },
                _ => {
                    proof {
                        assert(top_wf(nodes0[k as int]));
                        assert(false);
                    }
                    return Err(CompilerError::UnexpectedArgument);
                },
            }
            k = k + 1;
        }
        self.ASTnodes = nodes;
        match self.find_symbol("main") {
            Some(SymbolValue::Label(index)) => {
                let callw = vec![Word::U16(index)];
                let ghost before = out@;
                let call_inst = Instruction { tt: InstructionType::INST_CALL, values: Some(callw) };
                out.insert(0, call_inst);
                proof {
                    if !has_main_label(nodes0) {
                        if lookup(t1, "main"@) is Some {
                            lemma_lookup_some_index(t1, "main"@);
                            let i = choose|i: int|
                                0 <= i < t1.len() && (#[trigger] t1[i]).0@ == "main"@;
                            let m = choose|m: int|
                                0 <= m < nodes0.len() && (#[trigger] nodes0[m]) is Label && t1[i].0@
                                    == nodes0[m]->Label_0@;
                            assert(has_main_label(nodes0));
                        }
                        assert(false);
                    }
                    assert(out@ =~= seq![call_inst] + before);
                    assert(out@.map_values(|q: Instruction| q.tt) =~= seq![
                        InstructionType::INST_CALL,
                    ] + flat_ops(nodes0, nodes0.len() as int));
                    assert(call_inst.model().1 =~= seq![Word::U16(index)]);
                }
                Ok(out)
            },
            _ => {
                proof {
                    if has_main_label(nodes0) {
                        let m = choose|m: int|
                            0 <= m < nodes0.len() && (#[trigger] nodes0[m]) is Label
                                && nodes0[m]->Label_0@ == "main"@;
                        assert(lookup(t1, "main"@) == Some(
                            SymbolValue::Label((flat_count(nodes0, m) + shift) as u16),
                        ));
                        assert(false);
                    }
                }
                Ok(out)
            },
        }
    }

    /// What resolving the name `x` does: a known label or variable keeps
    /// the machine as it was; a fresh name takes the next pool slot, unless
    /// the pool is spent.
    pub open spec fn resolved_arg(
        pre: Self,
        post: Self,
        x: Seq<char>,
        r: Result<Vec<Word>, CompilerError>,
    ) -> bool {
        match lookup(pre.symbol_table@, x) {
            Some(sv) => post.symbol_table == pre.symbol_table && post.const_pool_index
                == pre.const_pool_index && (r matches Ok(ws) && ws@ == seq![
                Word::U16(
                    match sv {
                        SymbolValue::Label(a) => a,
                        SymbolValue::Variable(v) => v,
                    },
                ),
            ]),
            None => if pre.const_pool_index < 65535 {
                &&& r matches Ok(ws)
                &&& ws@ == seq![Word::U16(pre.const_pool_index as u16)]
                &&& post.const_pool_index == pre.const_pool_index + 1
                &&& lookup(post.symbol_table@, x) == Some(
                    SymbolValue::Variable(pre.const_pool_index as u16),
                )
            } else {
                r == Err::<Vec<Word>, CompilerError>(CompilerError::UnexpectedArgument)
            },
        }
    }
}

/// A character operand word.
fn char_word(c: char) -> (w: Word)
    ensures
        w == Word::Char(c),
{
    Word::Char(c)
}

/// Flatten a string literal: its character count, then each character.
fn flatten_string(x: &String) -> (r: Vec<Word>)
    ensures
        r@.len() == x@.len() + 1,
        r@[0] == Word::U16(x@.len() as u16),
        forall|i: int| 0 <= i < x@.len() ==> r@[i + 1] == Word::Char(x@[i]),
{
    let cs = crate::lexer::str_chars(x.as_str());
    let n = cs.len();
    let l: u16 = #[verifier::truncate] (n as u16);
    let mut words: Vec<Word> = Vec::new();
    words.push(Word::U16(l));
    let mut i: usize = 0;
    while i < n
        invariant
            i <= n,
            n == cs@.len(),
            cs@ == x@,
            l == cs@.len() as u16,
            words@.len() == i + 1,
            words@[0] == Word::U16(l),
            forall|j: int| 0 <= j < i ==> (#[trigger] words@[j + 1]) == Word::Char(cs@[j]),
        decreases n - i,
    {
        let c = cs[i];
        let w = char_word(c);
        words.push(w);
        i = i + 1;
    }
    words
}

/// A name that looks up successfully appears in the table.
proof fn lemma_lookup_some_index(table: Seq<(String, SymbolValue)>, name: Seq<char>)
    requires
        lookup(table, name) is Some,
    ensures
        exists|i: int| 0 <= i < table.len() && (#[trigger] table[i]).0@ == name,
    decreases table.len(),
{
    if table.len() > 0 {
        if table[0].0@ == name {
            assert(0 <= 0 < table.len() && table[0].0@ == name);
        } else {
            lemma_lookup_some_index(table.drop_first(), name);
            let i = choose|i: int|
                0 <= i < table.drop_first().len() && (#[trigger] table.drop_first()[i]).0@
                    == name;
            assert(table[i + 1].0@ == name);
        }
    }
}

/// Growing the table at its end preserves every name that already
/// resolves.
proof fn lemma_lookup_push_all(table: Seq<(String, SymbolValue)>, p: (String, SymbolValue))
    ensures
        forall|nm: Seq<char>|
            #[trigger] lookup(table, nm) is Some ==> lookup(table.push(p), nm) == lookup(
                table,
                nm,
            ),
{
    assert forall|nm: Seq<char>| #[trigger] lookup(table, nm) is Some implies lookup(
        table.push(p),
        nm,
    ) == lookup(table, nm) by {
        lemma_lookup_push(table, p, nm);
    }
}

} // verus!
