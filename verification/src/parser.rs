//! The parser: recursive descent over the token sequence, with one token
//! of lookahead, that stops at the first failure.

use vstd::prelude::*;
use vstd::string::*;
use crate::err::{Diagnostic, T8Err};
use crate::results::{after, emit, lemma_after_emit, lemma_after_nothing};
use crate::instruction::{invalid_instruction_msg, spec_from_mnemonic, Instruction};
use crate::lexer::{token_views, Token, TokenInner, TokenKind, TokenView};
use crate::text::{numeral, push_numeral, same_text, text_of, text_of_bytes};

verus! {

#[derive(Debug, Clone, Copy, PartialEq, Eq, Structural)]
pub enum Builtin {
    Const,
}

#[derive(Debug, PartialEq, Eq)]
pub enum Node {
    /// .<kind> <lhs> <rhs>
    Builtin { kind: Builtin, lhs: String, rhs: Box<Node> },
    /// <instruction> <rhs>; `partial` has its opcode fixed and its operand
    /// field still at zero.
    Instruction { partial: Instruction, rhs: Option<Box<Node>> },
    /// #<literal>
    Literal(Box<Node>),
    /// [<addr>]
    Addr(Box<Node>),
    Number(u8),
    /// A name, with the line and column of the token that holds it.
    Ident { line: usize, col: usize, inner: String },
}

pub ghost enum NodeView {
    Builtin { kind: Builtin, lhs: Seq<char>, rhs: Box<NodeView> },
    Instruction { partial: Instruction, rhs: Option<Box<NodeView>> },
    Literal(Box<NodeView>),
    Addr(Box<NodeView>),
    Number(u8),
    Ident { line: int, col: int, inner: Seq<char> },
}

impl View for Node {
    type V = NodeView;

    open spec fn view(&self) -> NodeView
        decreases self,
    {
        match self {
            Node::Builtin { kind, lhs, rhs } => NodeView::Builtin {
                kind: *kind,
                lhs: lhs@,
                rhs: Box::new((**rhs).view()),
            },
            Node::Instruction { partial, rhs } => NodeView::Instruction {
                partial: *partial,
                rhs: match rhs {
                    Some(inner) => Some(Box::new((**inner).view())),
                    None => None,
                },
            },
            Node::Literal(inner) => NodeView::Literal(Box::new((**inner).view())),
            Node::Addr(inner) => NodeView::Addr(Box::new((**inner).view())),
            Node::Number(n) => NodeView::Number(*n),
            Node::Ident { line, col, inner } => NodeView::Ident {
                line: *line as int,
                col: *col as int,
                inner: inner@,
            },
        }
    }
}

/// The views of a sequence of nodes, in order.
pub open spec fn node_views(nodes: Seq<Node>) -> Seq<NodeView> {
    nodes.map_values(|n: Node| n@)
}

impl NodeView {
    /// A number or a name: what `#` and `[ ]` wrap.
    pub open spec fn is_atom(self) -> bool {
        self is Number || self is Ident
    }

    /// One of the three forms of an operand.
    pub open spec fn is_operand(self) -> bool {
        match self {
            NodeView::Literal(inner) => inner.is_atom(),
            NodeView::Addr(inner) => inner.is_atom(),
            NodeView::Number(_) => true,
            _ => false,
        }
    }

    /// A node as the parser builds it: a directive with a number, an
    /// instruction with an operand exactly where its opcode takes one and
    /// its operand field still at zero, or an operand.
    pub open spec fn well_formed(self) -> bool {
        match self {
            NodeView::Builtin { rhs, .. } => *rhs is Number,
            NodeView::Instruction { partial, rhs } => {
                &&& partial.spec_operand() == 0
                &&& match rhs {
                    Some(inner) => partial.spec_wants_operand() && inner.is_operand(),
                    None => !partial.spec_wants_operand(),
                }
            },
            other => other.is_operand(),
        }
    }
}

/// The builtin of a name; only `const` is one.
pub open spec fn spec_builtin(name: Seq<char>) -> Option<Builtin> {
    if name == "const"@ {
        Some(Builtin::Const)
    } else {
        None
    }
}

pub open spec fn unknown_builtin_msg(name: Seq<char>) -> Seq<char> {
    "Unknown builtin `"@ + name + "`"@
}

pub open spec fn wanted_lhs_msg() -> Seq<char> {
    "Wanted ident as builtin lhs, got something else"@
}

pub open spec fn invalid_const_rhs_msg() -> Seq<char> {
    "Invalid rhs for .const, wanted number"@
}

pub open spec fn invalid_literal_msg() -> Seq<char> {
    "Invalid inner literal, wanted ident or number"@
}

pub open spec fn invalid_addr_msg() -> Seq<char> {
    "Invalid inner addr, wanted ident or number"@
}

pub open spec fn missing_bracket_msg() -> Seq<char> {
    "] needed for addr syntax"@
}

pub open spec fn wanted_operand_msg() -> Seq<char> {
    "Wanted an operand, got something else"@
}

/// The text of the failure for a `]` that closes nothing: the token as
/// `Debug` shows it, with its place.
pub open spec fn stray_bracket_msg(line: int, col: int) -> Seq<char> {
    "Unkown token type Token { line: "@ + numeral(line as nat, 10, false) + ", col: "@ + numeral(
        col as nat,
        10,
        false,
    ) + ", inner: RightBracket }"@
}

/// A failure at token `at`: it carries that token's place, or the place of
/// the last token where the input has ended before `at`.
pub open spec fn failure_at(toks: Seq<TokenView>, at: int, msg: Seq<char>) -> Diagnostic {
    let i = if at < toks.len() {
        at
    } else {
        toks.len() - 1
    };
    Diagnostic { line: toks[i].line, col: toks[i].col, msg }
}

/// The number or name at token `at`, if one stands there.
pub open spec fn atom_at(toks: Seq<TokenView>, at: int) -> Option<NodeView> {
    if 0 <= at < toks.len() {
        match toks[at].inner {
            TokenKind::Number(n) => Some(NodeView::Number(n)),
            TokenKind::Ident(name) => Some(
                NodeView::Ident {
                    line: toks[at].line,
                    col: toks[at].col,
                    inner: text_of_bytes(name),
                },
            ),
            _ => None,
        }
    } else {
        None
    }
}

/// The operand that begins at token `at`, with the index of the token
/// behind it.
pub open spec fn operand_at(toks: Seq<TokenView>, at: int) -> Result<(NodeView, int), Diagnostic> {
    if at < 0 || at >= toks.len() {
        Err(failure_at(toks, at, wanted_operand_msg()))
    } else {
        match toks[at].inner {
            TokenKind::Hash => match atom_at(toks, at + 1) {
                Some(inner) => Ok((NodeView::Literal(Box::new(inner)), at + 2)),
                None => Err(failure_at(toks, at + 1, invalid_literal_msg())),
            },
            TokenKind::LeftBraket => match atom_at(toks, at + 1) {
                Some(inner) => if at + 2 < toks.len() && toks[at + 2].inner is RightBraket {
                    Ok((NodeView::Addr(Box::new(inner)), at + 3))
                } else {
                    Err(failure_at(toks, at + 2, missing_bracket_msg()))
                },
                None => Err(failure_at(toks, at + 1, invalid_addr_msg())),
            },
            TokenKind::Number(n) => Ok((NodeView::Number(n), at + 1)),
            TokenKind::RightBraket => Err(
                failure_at(toks, at, stray_bracket_msg(toks[at].line, toks[at].col)),
            ),
            _ => Err(failure_at(toks, at, wanted_operand_msg())),
        }
    }
}

/// The `.const NAME VALUE` that begins at token `at`, whose name is `name`.
pub open spec fn builtin_at(toks: Seq<TokenView>, at: int, name: Seq<u8>) -> Result<
    (NodeView, int),
    Diagnostic,
> {
    match spec_builtin(text_of_bytes(name)) {
        None => Err(failure_at(toks, at, unknown_builtin_msg(text_of_bytes(name)))),
        Some(kind) => if at + 1 < toks.len() && toks[at + 1].inner is Ident {
            if at + 2 < toks.len() && toks[at + 2].inner is Number {
                Ok(
                    (
                        NodeView::Builtin {
                            kind,
                            lhs: text_of_bytes(toks[at + 1].inner->Ident_0),
                            rhs: Box::new(NodeView::Number(toks[at + 2].inner->Number_0)),
                        },
                        at + 3,
                    ),
                )
            } else {
                Err(failure_at(toks, at + 2, invalid_const_rhs_msg()))
            }
        } else {
            Err(failure_at(toks, at + 1, wanted_lhs_msg()))
        },
    }
}

/// The instruction that begins at token `at`, whose mnemonic is `name`.
pub open spec fn instruction_at(toks: Seq<TokenView>, at: int, name: Seq<u8>) -> Result<
    (NodeView, int),
    Diagnostic,
> {
    match spec_from_mnemonic(text_of_bytes(name)) {
        None => Err(failure_at(toks, at, invalid_instruction_msg(text_of_bytes(name)))),
        Some(partial) => if partial.spec_wants_operand() {
            match operand_at(toks, at + 1) {
                Ok((operand, next)) => Ok(
                    (NodeView::Instruction { partial, rhs: Some(Box::new(operand)) }, next),
                ),
                Err(d) => Err(d),
            }
        } else {
            Ok((NodeView::Instruction { partial, rhs: None }, at + 1))
        },
    }
}

/// The top-level node that begins at token `at`, with the index of the
/// token behind it.
pub open spec fn node_at(toks: Seq<TokenView>, at: int) -> Result<(NodeView, int), Diagnostic>
    recommends
        0 <= at < toks.len(),
{
    match toks[at].inner {
        TokenKind::Builtin(name) => builtin_at(toks, at, name),
        TokenKind::Ident(name) => instruction_at(toks, at, name),
        _ => operand_at(toks, at),
    }
}

/// The nodes from token `at` to the end of the input, or the first failure.
pub open spec fn parse_from(toks: Seq<TokenView>, at: int) -> Result<Seq<NodeView>, Diagnostic>
    decreases
            (if at < toks.len() {
                toks.len() - at
            } else {
                0
            }),
{
    if at < 0 || at >= toks.len() {
        Ok(Seq::empty())
    } else {
        match node_at(toks, at) {
            Err(d) => Err(d),
            Ok((node, next)) => emit(node, parse_from(toks, next)),
        }
    }
}

/// The nodes of a whole token sequence, or its first failure.
pub open spec fn spec_parse(toks: Seq<TokenView>) -> Result<Seq<NodeView>, Diagnostic> {
    parse_from(toks, 0)
}

/// A node ends behind the token that it begins at and inside the input,
/// and is well formed.
pub proof fn lemma_node_advances(toks: Seq<TokenView>, at: int)
    requires
        0 <= at < toks.len(),
        node_at(toks, at) is Ok,
    ensures
        at < node_at(toks, at)->Ok_0.1 <= toks.len(),
        node_at(toks, at)->Ok_0.0.well_formed(),
{
}

/// Every node that parsing gives is well formed: `#` and `[ ]` wrap a
/// number or a name and nothing else, a directive holds a number, and an
/// instruction has an operand exactly where its opcode takes one.
pub proof fn lemma_parsed_nodes_well_formed(toks: Seq<TokenView>, at: int)
    requires
        0 <= at,
        parse_from(toks, at) is Ok,
    ensures
        forall|i: int|
            0 <= i < parse_from(toks, at)->Ok_0.len() ==> (#[trigger] parse_from(
                toks,
                at,
            )->Ok_0[i]).well_formed(),
    decreases toks.len() - at,
{
    if at < toks.len() {
        lemma_node_advances(toks, at);
        let next = node_at(toks, at)->Ok_0.1;
        lemma_parsed_nodes_well_formed(toks, next);
    }
}

proof fn lemma_views_push(nodes: Seq<Node>, n: Node)
    ensures
        node_views(nodes.push(n)) == node_views(nodes).push(n@),
{
    assert(node_views(nodes.push(n)) =~= node_views(nodes).push(n@));
}

impl Builtin {
    /// Looks a builtin up by the name behind the `.`.
    pub fn from_name(name: &[u8]) -> (r: Result<Builtin, String>)
        ensures
            match spec_builtin(text_of_bytes(name@)) {
                Some(kind) => r == Ok::<Builtin, String>(kind),
                None => r is Err && r->Err_0@ == unknown_builtin_msg(text_of_bytes(name@)),
            },
    {
        let shown = text_of(name);
        if same_text(shown.as_str(), "const") {
            Ok(Builtin::Const)
        } else {
            Err(String::from_str("Unknown builtin `").concat(shown.as_str()).concat("`"))
        }
    }
}

pub struct Parser<'parser> {
    src: &'parser [Token],
    pos: usize,
}

impl<'parser> Parser<'parser> {
    /// The tokens that the parser reads.
    pub closed spec fn tokens(&self) -> Seq<TokenView> {
        token_views(self.src@)
    }

    /// The index of the next token to read.
    pub closed spec fn position(&self) -> int {
        self.pos as int
    }

    /// The parser stands inside its input.
    pub closed spec fn inv(&self) -> bool {
        self.pos <= self.src@.len() <= usize::MAX
    }

    pub fn new(src: &'parser [Token]) -> (r: Self)
        ensures
            r.inv(),
            r.tokens() == token_views(src@),
            r.position() == 0,
    {
        let _len: usize = src.len();
        Parser { src, pos: 0 }
    }

    fn end(&self) -> (r: bool)
        ensures
            r == (self.pos >= self.src@.len()),
    {
        self.pos >= self.src.len()
    }

    /// A failure at the parser's place.
    fn err(&self, msg: String) -> (r: T8Err)
        requires
            self.src@.len() > 0,
        ensures
            r@ == failure_at(token_views(self.src@), self.pos as int, msg@),
    {
        let i: usize = if self.pos < self.src.len() {
            self.pos
        } else {
            self.src.len() - 1
        };
        T8Err { line: self.src[i].line, col: self.src[i].col, msg }
    }

    /// The number or name at the parser's place, if one stands there.
    fn atom(&self) -> (r: Option<Node>)
        ensures
            match atom_at(token_views(self.src@), self.pos as int) {
                Some(n) => r is Some && r->Some_0@ == n,
                None => r is None,
            },
    {
        if self.pos >= self.src.len() {
            return None;
        }
        let tok = &self.src[self.pos];
        match &tok.inner {
            TokenInner::Number(n) => Some(Node::Number(*n)),
            TokenInner::Ident(name) => Some(
                Node::Ident { line: tok.line, col: tok.col, inner: text_of(name.as_slice()) },
            ),
            _ => None,
        }
    }

    fn parse_operand(&mut self) -> (r: Result<Node, T8Err>)
        requires
            old(self).inv(),
            old(self).src@.len() > 0,
        ensures
            final(self).inv(),
            final(self).src == old(self).src,
            match operand_at(token_views(old(self).src@), old(self).pos as int) {
                Ok((n, next)) => r is Ok && r->Ok_0@ == n && final(self).pos == next,
                Err(d) => r is Err && r->Err_0@ == d,
            },
    {
        if self.end() {
            return Err(self.err(String::from_str("Wanted an operand, got something else")));
        }
        let src = self.src;
        match &src[self.pos].inner {
            TokenInner::Hash => {
                // skip #
                self.pos += 1;
                match self.atom() {
                    Some(inner) => {
                        // skip number or ident
                        self.pos += 1;
                        Ok(Node::Literal(Box::new(inner)))
                    },
                    None => Err(
                        self.err(String::from_str("Invalid inner literal, wanted ident or number")),
                    ),
                }
            },
            TokenInner::LeftBraket => {
                // skip [
                self.pos += 1;
                match self.atom() {
                    Some(inner) => {
                        // skip inner
                        self.pos += 1;
                        if self.pos < src.len() && matches!(
                            &src[self.pos].inner,
                            TokenInner::RightBraket
                        ) {
                            // skip ]
                            self.pos += 1;
                            Ok(Node::Addr(Box::new(inner)))
                        } else {
                            Err(self.err(String::from_str("] needed for addr syntax")))
                        }
                    },
                    None => Err(
                        self.err(String::from_str("Invalid inner addr, wanted ident or number")),
                    ),
                }
            },
            TokenInner::Number(n) => {
                self.pos += 1;
                Ok(Node::Number(*n))
            },
            TokenInner::RightBraket => {
                let mut msg = String::from_str("Unkown token type Token { line: ");
                push_numeral(&mut msg, src[self.pos].line, 10, false);
                msg.append(", col: ");
                push_numeral(&mut msg, src[self.pos].col, 10, false);
                msg.append(", inner: RightBracket }");
                assert(msg@ =~= stray_bracket_msg(
                    src@[self.pos as int].line as int,
                    src@[self.pos as int].col as int,
                ));
                Err(self.err(msg))
            },
            _ => Err(self.err(String::from_str("Wanted an operand, got something else"))),
        }
    }

    /// Reads the name and the value behind a builtin's name.
    fn parse_builtin(&mut self, name: &Vec<u8>) -> (r: Result<Node, T8Err>)
        requires
            old(self).inv(),
            old(self).pos < old(self).src@.len(),
        ensures
            final(self).inv(),
            final(self).src == old(self).src,
            match builtin_at(token_views(old(self).src@), old(self).pos as int, name@) {
                Ok((n, next)) => r is Ok && r->Ok_0@ == n && final(self).pos == next,
                Err(d) => r is Err && r->Err_0@ == d,
            },
    {
        let src = self.src;
        let kind = match Builtin::from_name(name.as_slice()) {
            Ok(kind) => kind,
            Err(msg) => {
                return Err(self.err(msg));
            },
        };
        // skip .<kind>
        self.pos += 1;
        if self.end() {
            return Err(
                self.err(String::from_str("Wanted ident as builtin lhs, got something else")),
            );
        }
        let lhs = match &src[self.pos].inner {
            TokenInner::Ident(lhs) => text_of(lhs.as_slice()),
            _ => {
                return Err(
                    self.err(String::from_str("Wanted ident as builtin lhs, got something else")),
                );
            },
        };
        // skip lhs
        self.pos += 1;
        if self.end() {
            return Err(self.err(String::from_str("Invalid rhs for .const, wanted number")));
        }
        let rhs = match &src[self.pos].inner {
            TokenInner::Number(n) => Node::Number(*n),
            _ => {
                return Err(self.err(String::from_str("Invalid rhs for .const, wanted number")));
            },
        };
        assert(rhs@ is Number);
        // skip argument
        self.pos += 1;
        Ok(Node::Builtin { kind, lhs, rhs: Box::new(rhs) })
    }

    /// Looks the mnemonic up and reads the operand where the opcode takes one.
    fn parse_instruction(&mut self, name: &Vec<u8>) -> (r: Result<Node, T8Err>)
        requires
            old(self).inv(),
            old(self).pos < old(self).src@.len(),
        ensures
            final(self).inv(),
            final(self).src == old(self).src,
            match instruction_at(token_views(old(self).src@), old(self).pos as int, name@) {
                Ok((n, next)) => r is Ok && r->Ok_0@ == n && final(self).pos == next,
                Err(d) => r is Err && r->Err_0@ == d,
            },
    {
        let shown = text_of(name.as_slice());
        let partial = match Instruction::from_str_lossy(shown.as_str()) {
            Ok(partial) => partial,
            Err(msg) => {
                return Err(self.err(msg));
            },
        };
        // skip self
        self.pos += 1;
        if partial.wants_operand() {
            match self.parse_operand() {
                Ok(operand) => Ok(Node::Instruction { partial, rhs: Some(Box::new(operand)) }),
                Err(e) => Err(e),
            }
        } else {
            Ok(Node::Instruction { partial, rhs: None })
        }
    }

    /// Parses the one top-level node that begins at the parser's place,
    /// and leaves the parser behind it.
    pub fn parse_one(&mut self) -> (r: Result<Node, T8Err>)
        requires
            old(self).inv(),
            old(self).position() < old(self).tokens().len(),
        ensures
            final(self).inv(),
            final(self).tokens() == old(self).tokens(),
            match node_at(old(self).tokens(), old(self).position()) {
                Ok((n, next)) => r is Ok && r->Ok_0@ == n && final(self).position() == next,
                Err(d) => r is Err && r->Err_0@ == d,
            },
    {
        let src = self.src;
        match &src[self.pos].inner {
            TokenInner::Builtin(name) => self.parse_builtin(name),
            TokenInner::Ident(name) => self.parse_instruction(name),
            _ => self.parse_operand(),
        }
    }

    /// Parses from the parser's place to the end of the tokens. The result
    /// is every top-level node in order, or the first failure; on success
    /// the parser is left at the end of its input.
    pub fn parse(&mut self) -> (r: Result<Vec<Node>, T8Err>)
        requires
            old(self).inv(),
        ensures
            final(self).inv(),
            final(self).tokens() == old(self).tokens(),
            match parse_from(old(self).tokens(), old(self).position()) {
                Ok(nodes) => r is Ok && node_views(r->Ok_0@) == nodes && final(self).position()
                    == final(self).tokens().len(),
                Err(d) => r is Err && r->Err_0@ == d,
            },
    {
        let mut nodes: Vec<Node> = Vec::new();
        let ghost goal = parse_from(token_views(self.src@), self.pos as int);
        proof {
            assert(node_views(nodes@) =~= Seq::<NodeView>::empty());
            lemma_after_nothing(goal);
        }
        while !self.end()
            invariant
                self.inv(),
                token_views(self.src@) == token_views(old(self).src@),
                goal == parse_from(token_views(old(self).src@), old(self).pos as int),
                goal == after(
                    node_views(nodes@),
                    parse_from(token_views(self.src@), self.pos as int),
                ),
            decreases self.src@.len() - self.pos,
        {
            let ghost pre = node_views(nodes@);
            let ghost at = self.pos as int;
            match self.parse_one() {
                Err(e) => {
                    return Err(e);
                },
                Ok(node) => {
                    proof {
                        lemma_node_advances(token_views(self.src@), at);
                        lemma_views_push(nodes@, node);
                        lemma_after_emit(
                            pre,
                            node@,
                            parse_from(token_views(self.src@), self.pos as int),
                        );
                    }
                    nodes.push(node);
                },
            }
        }
        proof {
            assert(node_views(nodes@) + Seq::<NodeView>::empty() =~= node_views(nodes@));
        }
        Ok(nodes)
    }
}

} // verus!
