//! The code generator: walks the parsed nodes in source order, keeps the
//! table of named constants, and resolves every operand to a byte.

use vstd::prelude::*;
use vstd::string::*;
use crate::err::{Diagnostic, T8Err};
use crate::results::{after, emit, lemma_after_emit, lemma_after_end, lemma_after_nothing};
use crate::instruction::Instruction;
use crate::parser::{node_views, Builtin, Node, NodeView};
use crate::text::{debug_of, debug_text, same_text};

verus! {

/// The table that a list of definitions stands for: each definition
/// overwrites what its name had before.
pub open spec fn table_of(entries: Seq<(String, u8)>) -> Map<Seq<char>, u8>
    decreases entries.len(),
{
    if entries.len() == 0 {
        Map::empty()
    } else {
        table_of(entries.drop_last()).insert(entries.last().0@, entries.last().1)
    }
}

/// The text of the failure for a name that the table lacks: the name as
/// `Debug` shows it, between backticks.
pub open spec fn undefined_identifier_msg(name: Seq<char>) -> Seq<char> {
    "Undefined identifier `"@ + debug_text(name) + "`"@
}

/// The failure for a name that the table lacks, from the place of the
/// reference and the name as it is shown.
pub fn undefined_identifier(line: usize, col: usize, shown: &str) -> (r: T8Err)
    ensures
        r@ == (Diagnostic {
            line: line as int,
            col: col as int,
            msg: "Undefined identifier `"@ + shown@ + "`"@,
        }),
{
    T8Err { line, col, msg: String::from_str("Undefined identifier `").concat(shown).concat("`") }
}

pub open spec fn not_an_operand_msg() -> Seq<char> {
    "Wanted an operand, got something else"@
}

pub open spec fn missing_operand_msg() -> Seq<char> {
    "Instruction is missing its operand"@
}

pub open spec fn invalid_const_msg() -> Seq<char> {
    "Invalid rhs for .const, wanted number"@
}

pub open spec fn not_an_operation_msg() -> Seq<char> {
    "Wanted a directive or an instruction, got an operand"@
}

/// A failure of a node that holds no place of its own.
pub open spec fn unplaced(msg: Seq<char>) -> Diagnostic {
    Diagnostic { line: 0, col: 0, msg }
}

/// The byte that an operand stands for under `table`. `#` and `[ ]` are
/// transparent; a name that the table lacks fails at the name's place.
pub open spec fn resolve(table: Map<Seq<char>, u8>, node: NodeView) -> Result<u8, Diagnostic>
    decreases node,
{
    match node {
        NodeView::Literal(inner) => resolve(table, *inner),
        NodeView::Addr(inner) => resolve(table, *inner),
        NodeView::Number(n) => Ok(n),
        NodeView::Ident { line, col, inner } => if table.dom().contains(inner) {
            Ok(table[inner])
        } else {
            Err(Diagnostic { line, col, msg: undefined_identifier_msg(inner) })
        },
        _ => Err(unplaced(not_an_operand_msg())),
    }
}

/// What one top-level node contributes under `table`: nothing for a
/// directive, one instruction with its operand resolved for an operation.
pub open spec fn lowered(table: Map<Seq<char>, u8>, node: NodeView) -> Result<
    Option<Instruction>,
    Diagnostic,
> {
    match node {
        NodeView::Builtin { rhs, .. } => if *rhs is Number {
            Ok(None)
        } else {
            Err(unplaced(invalid_const_msg()))
        },
        NodeView::Instruction { partial, rhs } => if partial.spec_wants_operand() {
            match rhs {
                Some(operand) => match resolve(table, *operand) {
                    Ok(v) => Ok(Some(partial.spec_with_operand(v))),
                    Err(d) => Err(d),
                },
                None => Err(unplaced(missing_operand_msg())),
            }
        } else {
            Ok(Some(partial))
        },
        _ => Err(unplaced(not_an_operation_msg())),
    }
}

/// The table after one top-level node: a `.const` with a number defines or
/// overwrites its name, everything else leaves the table as it is.
pub open spec fn table_after(table: Map<Seq<char>, u8>, node: NodeView) -> Map<Seq<char>, u8> {
    match node {
        NodeView::Builtin { lhs, rhs, .. } => match *rhs {
            NodeView::Number(n) => table.insert(lhs, n),
            _ => table,
        },
        _ => table,
    }
}

/// The instructions of a sequence of top-level nodes from node `at` on,
/// in source order, or the first failure.
pub open spec fn lowered_from(table: Map<Seq<char>, u8>, nodes: Seq<NodeView>, at: int) -> Result<
    Seq<Instruction>,
    Diagnostic,
>
    decreases nodes.len() - at,
{
    if at < 0 || at >= nodes.len() {
        Ok(Seq::empty())
    } else {
        match lowered(table, nodes[at]) {
            Err(d) => Err(d),
            Ok(None) => lowered_from(table_after(table, nodes[at]), nodes, at + 1),
            Ok(Some(i)) => emit(i, lowered_from(table_after(table, nodes[at]), nodes, at + 1)),
        }
    }
}

/// The table at which lowering the nodes from `at` on stops: behind the
/// last node, or before the first that fails.
pub open spec fn table_from(table: Map<Seq<char>, u8>, nodes: Seq<NodeView>, at: int) -> Map<
    Seq<char>,
    u8,
>
    decreases nodes.len() - at,
{
    if at < 0 || at >= nodes.len() {
        table
    } else {
        match lowered(table, nodes[at]) {
            Err(_) => table,
            Ok(_) => table_from(table_after(table, nodes[at]), nodes, at + 1),
        }
    }
}

proof fn lemma_table_finds(entries: Seq<(String, u8)>, name: Seq<char>, i: int)
    requires
        0 <= i < entries.len(),
        entries[i].0@ == name,
        forall|j: int| i < j < entries.len() ==> (#[trigger] entries[j]).0@ != name,
    ensures
        table_of(entries).dom().contains(name),
        table_of(entries)[name] == entries[i].1,
    decreases entries.len(),
{
    if i < entries.len() - 1 {
        lemma_table_finds(entries.drop_last(), name, i);
    }
}

proof fn lemma_table_lacks(entries: Seq<(String, u8)>, name: Seq<char>)
    requires
        forall|j: int| 0 <= j < entries.len() ==> (#[trigger] entries[j]).0@ != name,
    ensures
        !table_of(entries).dom().contains(name),
    decreases entries.len(),
{
    if entries.len() > 0 {
        lemma_table_lacks(entries.drop_last(), name);
    }
}

/// A later definition of a name replaces an earlier one: after `.const`
/// has given `name` first one value and then another, a reference to
/// `name` resolves to the second, bare or behind `#` or `[ ]`, and an
/// operation that refers to it carries the second value.
pub proof fn lemma_last_definition_wins(
    table: Map<Seq<char>, u8>,
    name: Seq<char>,
    first: u8,
    second: u8,
    line: int,
    col: int,
)
    ensures
        ({
            let earlier = NodeView::Builtin {
                kind: Builtin::Const,
                lhs: name,
                rhs: Box::new(NodeView::Number(first)),
            };
            let later = NodeView::Builtin {
                kind: Builtin::Const,
                lhs: name,
                rhs: Box::new(NodeView::Number(second)),
            };
            let reference = NodeView::Ident { line, col, inner: name };
            let defined = table_after(table_after(table, earlier), later);
            let load = NodeView::Instruction {
                partial: Instruction::LOADI { imm: 0 },
                rhs: Some(Box::new(NodeView::Literal(Box::new(reference)))),
            };
            &&& resolve(defined, reference) == Ok::<u8, Diagnostic>(second)
            &&& resolve(defined, NodeView::Literal(Box::new(reference))) == Ok::<u8, Diagnostic>(
                second,
            )
            &&& resolve(defined, NodeView::Addr(Box::new(reference))) == Ok::<u8, Diagnostic>(
                second,
            )
            &&& lowered_from(table, seq![earlier, later, load], 0) == Ok::<
                Seq<Instruction>,
                Diagnostic,
            >(seq![Instruction::LOADI { imm: second }])
        }),
{
    let earlier = NodeView::Builtin {
        kind: Builtin::Const,
        lhs: name,
        rhs: Box::new(NodeView::Number(first)),
    };
    let later = NodeView::Builtin {
        kind: Builtin::Const,
        lhs: name,
        rhs: Box::new(NodeView::Number(second)),
    };
    let reference = NodeView::Ident { line, col, inner: name };
    let load = NodeView::Instruction {
        partial: Instruction::LOADI { imm: 0 },
        rhs: Some(Box::new(NodeView::Literal(Box::new(reference)))),
    };
    let nodes = seq![earlier, later, load];
    let once = table_after(table, earlier);
    let defined = table_after(once, later);
    reveal_with_fuel(resolve, 3);
    assert(resolve(defined, NodeView::Literal(Box::new(reference))) == Ok::<u8, Diagnostic>(second));
    assert(lowered_from(defined, nodes, 3) == Ok::<Seq<Instruction>, Diagnostic>(Seq::empty()));
    assert(lowered(defined, nodes[2]) == Ok::<Option<Instruction>, Diagnostic>(
        Some(Instruction::LOADI { imm: second }),
    ));
    assert(seq![Instruction::LOADI { imm: second }] + Seq::<Instruction>::empty() =~= seq![
        Instruction::LOADI { imm: second },
    ]);
    assert(lowered_from(defined, nodes, 2) == Ok::<Seq<Instruction>, Diagnostic>(
        seq![Instruction::LOADI { imm: second }],
    ));
    assert(lowered_from(once, nodes, 1) == lowered_from(defined, nodes, 2));
    assert(lowered_from(table, nodes, 0) == lowered_from(once, nodes, 1));
}

/// How many of the nodes from `at` on are operations.
pub open spec fn operations_from(nodes: Seq<NodeView>, at: int) -> nat
    decreases nodes.len() - at,
{
    if at < 0 || at >= nodes.len() {
        0
    } else if nodes[at] is Instruction {
        1 + operations_from(nodes, at + 1)
    } else {
        operations_from(nodes, at + 1)
    }
}

/// Lowering succeeds only on directives and operations. It gives one
/// instruction for each operation and none for a directive, and where the
/// first node is an operation, the first instruction has its opcode.
pub proof fn lemma_one_instruction_per_operation(
    table: Map<Seq<char>, u8>,
    nodes: Seq<NodeView>,
    at: int,
)
    requires
        0 <= at,
        lowered_from(table, nodes, at) is Ok,
    ensures
        lowered_from(table, nodes, at)->Ok_0.len() == operations_from(nodes, at),
        forall|k: int| at <= k < nodes.len() ==> (#[trigger] nodes[k]) is Builtin || nodes[k] is Instruction,
        at < nodes.len() && nodes[at] is Instruction ==> lowered_from(
            table,
            nodes,
            at,
        )->Ok_0.len() > 0 && lowered_from(table, nodes, at)->Ok_0[0].spec_opcode()
            == nodes[at]->Instruction_partial.spec_opcode(),
    decreases nodes.len() - at,
{
    if at < nodes.len() {
        lemma_one_instruction_per_operation(table_after(table, nodes[at]), nodes, at + 1);
    }
}

/// The name that an operand refers to, with its place, if it refers to one.
pub open spec fn referenced(operand: NodeView) -> Option<(int, int, Seq<char>)> {
    match operand {
        NodeView::Literal(inner) => match *inner {
            NodeView::Ident { line, col, inner } => Some((line, col, inner)),
            _ => None,
        },
        NodeView::Addr(inner) => match *inner {
            NodeView::Ident { line, col, inner } => Some((line, col, inner)),
            _ => None,
        },
        _ => None,
    }
}

/// A well-formed node fails to lower for two reasons only: it is an
/// operand that stands alone, or it refers to a name that the table lacks,
/// and then the failure carries the place of that reference. A directive
/// gives no instruction, and an operation gives one with its own opcode.
pub proof fn lemma_well_formed_lowers(table: Map<Seq<char>, u8>, node: NodeView)
    requires
        node.well_formed(),
    ensures
        match node {
            NodeView::Builtin { .. } => lowered(table, node) == Ok::<
                Option<Instruction>,
                Diagnostic,
            >(None),
            NodeView::Instruction { partial, rhs } => match rhs {
                None => lowered(table, node) == Ok::<Option<Instruction>, Diagnostic>(
                    Some(partial),
                ),
                Some(operand) => match referenced(*operand) {
                    Some((line, col, name)) => if table.dom().contains(name) {
                        lowered(table, node) == Ok::<Option<Instruction>, Diagnostic>(
                            Some(partial.spec_with_operand(table[name])),
                        )
                    } else {
                        lowered(table, node) == Err::<Option<Instruction>, Diagnostic>(
                            Diagnostic { line, col, msg: undefined_identifier_msg(name) },
                        )
                    },
                    None => lowered(table, node) is Ok && lowered(table, node)->Ok_0 is Some
                        && lowered(table, node)->Ok_0->Some_0.spec_opcode()
                        == partial.spec_opcode(),
                },
            },
            _ => lowered(table, node) == Err::<Option<Instruction>, Diagnostic>(
                unplaced(not_an_operation_msg()),
            ),
        },
{
    reveal_with_fuel(resolve, 3);
}

/// The view of a directive's value is a number exactly where the value is.
proof fn lemma_directive_value(node: Node)
    ensures
        match node {
            Node::Builtin { rhs, .. } => match *rhs {
                Node::Number(n) => (*rhs)@ == NodeView::Number(n),
                _ => !((*rhs)@ is Number),
            },
            _ => true,
        },
{
}

/// The state of one code-generation pass: the named constants so far.
pub struct Ctx {
    constants: Vec<(String, u8)>,
}

impl Ctx {
    /// The table of constants: each name with the value it was last given.
    pub closed spec fn table(&self) -> Map<Seq<char>, u8> {
        table_of(self.constants@)
    }

    pub fn new() -> (r: Self)
        ensures
            r.table() == Map::<Seq<char>, u8>::empty(),
    {
        Ctx { constants: Vec::new() }
    }

    /// The value that `name` was last given, if it was given one.
    pub fn lookup(&self, name: &str) -> (r: Option<u8>)
        ensures
            r == if self.table().dom().contains(name@) {
                Some(self.table()[name@])
            } else {
                None
            },
    {
        let mut i: usize = self.constants.len();
        while i > 0
            invariant
                i <= self.constants@.len(),
                forall|j: int|
                    i <= j < self.constants@.len() ==> (#[trigger] self.constants@[j]).0@
                        != name@,
            decreases i,
        {
            i -= 1;
            if same_text(self.constants[i].0.as_str(), name) {
                proof {
                    lemma_table_finds(self.constants@, name@, i as int);
                }
                return Some(self.constants[i].1);
            }
        }
        proof {
            lemma_table_lacks(self.constants@, name@);
        }
        None
    }

    /// Gives `name` the value `value`, whatever it had before.
    pub fn define(&mut self, name: String, value: u8)
        ensures
            final(self).table() == old(self).table().insert(name@, value),
    {
        let ghost before = self.constants@;
        self.constants.push((name, value));
        proof {
            assert(self.constants@.drop_last() =~= before);
        }
    }

    fn walk_asm_node(&self, node: &Node) -> (r: Result<u8, T8Err>)
        ensures
            match resolve(self.table(), node@) {
                Ok(v) => r == Ok::<u8, T8Err>(v),
                Err(d) => r is Err && r->Err_0@ == d,
            },
        decreases node,
    {
        match node {
            Node::Literal(inner) => self.walk_asm_node(inner),
            Node::Addr(inner) => self.walk_asm_node(inner),
            Node::Number(n) => Ok(*n),
            Node::Ident { line, col, inner } => match self.lookup(inner.as_str()) {
                Some(v) => Ok(v),
                None => {
                    let shown = debug_of(inner.as_str());
                    Err(undefined_identifier(*line, *col, shown.as_str()))
                },
            },
            _ => Err(
                T8Err {
                    line: 0,
                    col: 0,
                    msg: String::from_str("Wanted an operand, got something else"),
                },
            ),
        }
    }

    /// Lowers one top-level node: a directive changes the table and gives
    /// no instruction; an operation gives its instruction, with the operand
    /// resolved where the opcode takes one.
    pub fn node_to_instruction(&mut self, node: Node) -> (r: Result<Option<Instruction>, T8Err>)
        ensures
            match lowered(old(self).table(), node@) {
                Ok(i) => r == Ok::<Option<Instruction>, T8Err>(i),
                Err(d) => r is Err && r->Err_0@ == d,
            },
            final(self).table() == (if r is Ok {
                table_after(old(self).table(), node@)
            } else {
                old(self).table()
            }),
    {
        self.lower_node(&node)
    }

    fn lower_node(&mut self, node: &Node) -> (r: Result<Option<Instruction>, T8Err>)
        ensures
            match lowered(old(self).table(), node@) {
                Ok(i) => r == Ok::<Option<Instruction>, T8Err>(i),
                Err(d) => r is Err && r->Err_0@ == d,
            },
            final(self).table() == (if r is Ok {
                table_after(old(self).table(), node@)
            } else {
                old(self).table()
            }),
    {
        proof {
            lemma_directive_value(*node);
        }
        match node {
            Node::Builtin { kind, lhs, rhs } => match kind {
                Builtin::Const => match &**rhs {
                    Node::Number(n) => {
                        self.define(lhs.clone(), *n);
                        Ok(None)
                    },
                    _ => Err(
                        T8Err {
                            line: 0,
                            col: 0,
                            msg: String::from_str("Invalid rhs for .const, wanted number"),
                        },
                    ),
                },
            },
            Node::Instruction { partial, rhs } => {
                if partial.wants_operand() {
                    match rhs {
                        Some(operand) => match self.walk_asm_node(operand) {
                            Ok(v) => Ok(Some(partial.with_operand(v))),
                            Err(e) => Err(e),
                        },
                        None => Err(
                            T8Err {
                                line: 0,
                                col: 0,
                                msg: String::from_str("Instruction is missing its operand"),
                            },
                        ),
                    }
                } else {
                    Ok(Some(*partial))
                }
            },
            _ => Err(
                T8Err {
                    line: 0,
                    col: 0,
                    msg: String::from_str("Wanted a directive or an instruction, got an operand"),
                },
            ),
        }
    }

    /// Lowers a whole program: the instructions of its operations in source
    /// order, or the first failure.
    pub fn lower(&mut self, nodes: &[Node]) -> (r: Result<Vec<Instruction>, T8Err>)
        ensures
            match lowered_from(old(self).table(), node_views(nodes@), 0) {
                Ok(ins) => r is Ok && r->Ok_0@ == ins,
                Err(d) => r is Err && r->Err_0@ == d,
            },
            final(self).table() == table_from(old(self).table(), node_views(nodes@), 0),
    {
        let mut out: Vec<Instruction> = Vec::new();
        let ghost goal = lowered_from(self.table(), node_views(nodes@), 0);
        proof {
            lemma_after_nothing(goal);
        }
        let mut i: usize = 0;
        while i < nodes.len()
            invariant
                i <= nodes@.len(),
                goal == lowered_from(old(self).table(), node_views(nodes@), 0),
                table_from(old(self).table(), node_views(nodes@), 0) == table_from(
                    self.table(),
                    node_views(nodes@),
                    i as int,
                ),
                goal == after(out@, lowered_from(self.table(), node_views(nodes@), i as int)),
            decreases nodes@.len() - i,
        {
            let ghost pre = out@;
            let ghost table = self.table();
            match self.lower_node(&nodes[i]) {
                Err(e) => {
                    return Err(e);
                },
                Ok(None) => {},
                Ok(Some(instruction)) => {
                    proof {
                        lemma_after_emit(
                            pre,
                            instruction,
                            lowered_from(self.table(), node_views(nodes@), i + 1),
                        );
                    }
                    out.push(instruction);
                },
            }
            i += 1;
        }
        proof {
            lemma_after_end::<Instruction, Diagnostic>(out@);
        }
        Ok(out)
    }
}

} // verus!
