//! The parser: builds a syntax tree from a token stream.
//!
//! Statements are one per line.  A statement is a label, an instruction
//! with comma-separated arguments, or a compiler directive.  Parenthesized
//! arithmetic over integer literals is folded to a single constant here.

use vstd::prelude::*;
use crate::text::eq_str;
use crate::lexer::{LexerToken, LexerTokenType, TokenView};

verus! {

broadcast use vstd::std_specs::vec::axiom_vec_index_decreases;

/// The name tables of the machine registers, split by width.
pub struct Registers {}

pub open spec fn spec_reg32(name: Seq<char>) -> Option<u8> {
    if name == "r0"@ { Some(0u8) }
    else if name == "r1"@ { Some(1u8) }
    else if name == "r2"@ { Some(2u8) }
    else if name == "r3"@ { Some(3u8) }
    else if name == "r4"@ { Some(4u8) }
    else if name == "r5"@ { Some(5u8) }
    else if name == "r6"@ { Some(6u8) }
    else if name == "r7"@ { Some(7u8) }
    else if name == "r8"@ { Some(8u8) }
    else if name == "r9"@ { Some(9u8) }
    else if name == "ra"@ { Some(10u8) }
    else if name == "rb"@ { Some(11u8) }
    else if name == "rc"@ { Some(12u8) }
    else if name == "rd"@ { Some(13u8) }
    else if name == "re"@ { Some(14u8) }
    else if name == "rf"@ { Some(15u8) }
    else if name == "ip"@ { Some(16u8) }
    else if name == "sr"@ { Some(17u8) }
    else if name == "mfr"@ { Some(18u8) }
    else if name == "sp"@ { Some(19u8) }
    else if name == "bp"@ { Some(20u8) }
    else if name == "tptr"@ { Some(21u8) }
    else { None }
}

pub open spec fn spec_reg16(name: Seq<char>) -> Option<u8> {
    if name == "r00"@ { Some(0u8) }
    else if name == "r01"@ { Some(1u8) }
    else if name == "r10"@ { Some(2u8) }
    else if name == "r11"@ { Some(3u8) }
    else if name == "r20"@ { Some(4u8) }
    else if name == "r21"@ { Some(5u8) }
    else if name == "r30"@ { Some(6u8) }
    else if name == "r31"@ { Some(7u8) }
    else if name == "r40"@ { Some(8u8) }
    else if name == "r41"@ { Some(9u8) }
    else if name == "r50"@ { Some(10u8) }
    else if name == "r51"@ { Some(11u8) }
    else if name == "r60"@ { Some(12u8) }
    else if name == "r61"@ { Some(13u8) }
    else if name == "r70"@ { Some(14u8) }
    else if name == "r71"@ { Some(15u8) }
    else if name == "r80"@ { Some(16u8) }
    else if name == "r81"@ { Some(17u8) }
    else if name == "r90"@ { Some(18u8) }
    else if name == "r91"@ { Some(19u8) }
    else if name == "ra0"@ { Some(20u8) }
    else if name == "ra1"@ { Some(21u8) }
    else if name == "rb0"@ { Some(22u8) }
    else if name == "rb1"@ { Some(23u8) }
    else if name == "rc0"@ { Some(24u8) }
    else if name == "rc1"@ { Some(25u8) }
    else if name == "rd0"@ { Some(26u8) }
    else if name == "rd1"@ { Some(27u8) }
    else if name == "re0"@ { Some(28u8) }
    else if name == "re1"@ { Some(29u8) }
    else if name == "rf0"@ { Some(30u8) }
    else if name == "rf1"@ { Some(31u8) }
    else { None }
}

pub open spec fn spec_reg8(name: Seq<char>) -> Option<u8> {
    if name == "r00l"@ { Some(0u8) }
    else if name == "r00h"@ { Some(1u8) }
    else if name == "r01l"@ { Some(2u8) }
    else if name == "r01h"@ { Some(3u8) }
    else if name == "r10l"@ { Some(4u8) }
    else if name == "r10h"@ { Some(5u8) }
    else if name == "r11l"@ { Some(6u8) }
    else if name == "r11h"@ { Some(7u8) }
    else if name == "r20l"@ { Some(8u8) }
    else if name == "r20h"@ { Some(9u8) }
    else if name == "r21l"@ { Some(10u8) }
    else if name == "r21h"@ { Some(11u8) }
    else if name == "r30l"@ { Some(12u8) }
    else if name == "r30h"@ { Some(13u8) }
    else if name == "r31l"@ { Some(14u8) }
    else if name == "r31h"@ { Some(15u8) }
    else if name == "r40l"@ { Some(16u8) }
    else if name == "r40h"@ { Some(17u8) }
    else if name == "r41l"@ { Some(18u8) }
    else if name == "r41h"@ { Some(19u8) }
    else if name == "r50l"@ { Some(20u8) }
    else if name == "r50h"@ { Some(21u8) }
    else if name == "r51l"@ { Some(22u8) }
    else if name == "r51h"@ { Some(23u8) }
    else if name == "r60l"@ { Some(24u8) }
    else if name == "r60h"@ { Some(25u8) }
    else if name == "r61l"@ { Some(26u8) }
    else if name == "r61h"@ { Some(27u8) }
    else if name == "r70l"@ { Some(28u8) }
    else if name == "r70h"@ { Some(29u8) }
    else if name == "r71l"@ { Some(30u8) }
    else if name == "r71h"@ { Some(31u8) }
    else { None }
}


impl Registers {
    /// Looks a name up in the table.
    pub fn get32(&self, key: &[char]) -> (r: Option<u8>)
        ensures
            r == spec_reg32(key@),
    {
        if eq_str(key, "r0") { Some(0) }
        else if eq_str(key, "r1") { Some(1) }
        else if eq_str(key, "r2") { Some(2) }
        else if eq_str(key, "r3") { Some(3) }
        else if eq_str(key, "r4") { Some(4) }
        else if eq_str(key, "r5") { Some(5) }
        else if eq_str(key, "r6") { Some(6) }
        else if eq_str(key, "r7") { Some(7) }
        else if eq_str(key, "r8") { Some(8) }
        else if eq_str(key, "r9") { Some(9) }
        else if eq_str(key, "ra") { Some(10) }
        else if eq_str(key, "rb") { Some(11) }
        else if eq_str(key, "rc") { Some(12) }
        else if eq_str(key, "rd") { Some(13) }
        else if eq_str(key, "re") { Some(14) }
        else if eq_str(key, "rf") { Some(15) }
        else if eq_str(key, "ip") { Some(16) }
        else if eq_str(key, "sr") { Some(17) }
        else if eq_str(key, "mfr") { Some(18) }
        else if eq_str(key, "sp") { Some(19) }
        else if eq_str(key, "bp") { Some(20) }
        else if eq_str(key, "tptr") { Some(21) }
        else { None }
    }

    /// Looks a name up in the table.
    pub fn get16(&self, key: &[char]) -> (r: Option<u8>)
        ensures
            r == spec_reg16(key@),
    {
        if eq_str(key, "r00") { Some(0) }
        else if eq_str(key, "r01") { Some(1) }
        else if eq_str(key, "r10") { Some(2) }
        else if eq_str(key, "r11") { Some(3) }
        else if eq_str(key, "r20") { Some(4) }
        else if eq_str(key, "r21") { Some(5) }
        else if eq_str(key, "r30") { Some(6) }
        else if eq_str(key, "r31") { Some(7) }
        else if eq_str(key, "r40") { Some(8) }
        else if eq_str(key, "r41") { Some(9) }
        else if eq_str(key, "r50") { Some(10) }
        else if eq_str(key, "r51") { Some(11) }
        else if eq_str(key, "r60") { Some(12) }
        else if eq_str(key, "r61") { Some(13) }
        else if eq_str(key, "r70") { Some(14) }
        else if eq_str(key, "r71") { Some(15) }
        else if eq_str(key, "r80") { Some(16) }
        else if eq_str(key, "r81") { Some(17) }
        else if eq_str(key, "r90") { Some(18) }
        else if eq_str(key, "r91") { Some(19) }
        else if eq_str(key, "ra0") { Some(20) }
        else if eq_str(key, "ra1") { Some(21) }
        else if eq_str(key, "rb0") { Some(22) }
        else if eq_str(key, "rb1") { Some(23) }
        else if eq_str(key, "rc0") { Some(24) }
        else if eq_str(key, "rc1") { Some(25) }
        else if eq_str(key, "rd0") { Some(26) }
        else if eq_str(key, "rd1") { Some(27) }
        else if eq_str(key, "re0") { Some(28) }
        else if eq_str(key, "re1") { Some(29) }
        else if eq_str(key, "rf0") { Some(30) }
        else if eq_str(key, "rf1") { Some(31) }
        else { None }
    }

    /// Looks a name up in the table.
    pub fn get8(&self, key: &[char]) -> (r: Option<u8>)
        ensures
            r == spec_reg8(key@),
    {
        if eq_str(key, "r00l") { Some(0) }
        else if eq_str(key, "r00h") { Some(1) }
        else if eq_str(key, "r01l") { Some(2) }
        else if eq_str(key, "r01h") { Some(3) }
        else if eq_str(key, "r10l") { Some(4) }
        else if eq_str(key, "r10h") { Some(5) }
        else if eq_str(key, "r11l") { Some(6) }
        else if eq_str(key, "r11h") { Some(7) }
        else if eq_str(key, "r20l") { Some(8) }
        else if eq_str(key, "r20h") { Some(9) }
        else if eq_str(key, "r21l") { Some(10) }
        else if eq_str(key, "r21h") { Some(11) }
        else if eq_str(key, "r30l") { Some(12) }
        else if eq_str(key, "r30h") { Some(13) }
        else if eq_str(key, "r31l") { Some(14) }
        else if eq_str(key, "r31h") { Some(15) }
        else if eq_str(key, "r40l") { Some(16) }
        else if eq_str(key, "r40h") { Some(17) }
        else if eq_str(key, "r41l") { Some(18) }
        else if eq_str(key, "r41h") { Some(19) }
        else if eq_str(key, "r50l") { Some(20) }
        else if eq_str(key, "r50h") { Some(21) }
        else if eq_str(key, "r51l") { Some(22) }
        else if eq_str(key, "r51h") { Some(23) }
        else if eq_str(key, "r60l") { Some(24) }
        else if eq_str(key, "r60h") { Some(25) }
        else if eq_str(key, "r61l") { Some(26) }
        else if eq_str(key, "r61h") { Some(27) }
        else if eq_str(key, "r70l") { Some(28) }
        else if eq_str(key, "r70h") { Some(29) }
        else if eq_str(key, "r71l") { Some(30) }
        else if eq_str(key, "r71h") { Some(31) }
        else { None }
    }

}

/// An operator with one operand.
#[derive(Clone, Copy, Debug, PartialEq, Eq, Structural)]
pub enum UnaryOp {
    Negate,
    Identity,
}

/// An operator with two operands.
#[derive(Clone, Copy, Debug, PartialEq, Eq, Structural)]
pub enum BinaryOp {
    Addition,
    Subtraction,
    Multiplication,
    Division,
}

/// The shape of an expression node.
#[derive(Clone, Copy, Debug, PartialEq, Eq, Structural)]
pub enum ExpressionType {
    Binary(BinaryOp),
    Unary(UnaryOp),
}

/// The mathematical image of a node's type.
pub ghost enum NodeTypeView {
    ConstInteger(i64),
    ConstFloat(Seq<char>),
    Instruction(Seq<char>),
    CompilerInstruction(Seq<char>),
    Label(Seq<char>),
    Identifier(Seq<char>),
    Register(Seq<char>),
    String(Seq<char>),
    Expression(ExpressionType),
    Program,
}

/// What one syntax-tree node is.  A float literal keeps its lexeme: the
/// verified core carries no floating-point values, and hands the text to
/// whoever can interpret it.
#[derive(Debug)]
pub enum NodeType {
    ConstInteger(i64),
    ConstFloat(Vec<char>),
    Instruction(Vec<char>),
    CompilerInstruction(Vec<char>),
    Label(Vec<char>),
    Identifier(Vec<char>),
    Register(Vec<char>),
    String(Vec<char>),
    Expression(ExpressionType),
    Program,
}

impl DeepView for NodeType {
    type V = NodeTypeView;

    open spec fn deep_view(&self) -> NodeTypeView {
        match self {
            NodeType::ConstInteger(n) => NodeTypeView::ConstInteger(*n),
            NodeType::ConstFloat(s) => NodeTypeView::ConstFloat(s@),
            NodeType::Instruction(s) => NodeTypeView::Instruction(s@),
            NodeType::CompilerInstruction(s) => NodeTypeView::CompilerInstruction(s@),
            NodeType::Label(s) => NodeTypeView::Label(s@),
            NodeType::Identifier(s) => NodeTypeView::Identifier(s@),
            NodeType::Register(s) => NodeTypeView::Register(s@),
            NodeType::String(s) => NodeTypeView::String(s@),
            NodeType::Expression(e) => NodeTypeView::Expression(*e),
            NodeType::Program => NodeTypeView::Program,
        }
    }
}

/// The mathematical image of a syntax-tree node.
pub ghost struct NodeView {
    pub node_type: NodeTypeView,
    pub children: Seq<NodeView>,
}

/// One syntax-tree node, owning its children.
#[derive(Debug)]
pub struct ParserNode {
    pub node_type: NodeType,
    pub children: Vec<ParserNode>,
}

/// The mathematical image of a node and its children.
pub open spec fn node_view(n: ParserNode) -> NodeView
    decreases n,
{
    NodeView {
        node_type: n.node_type.deep_view(),
        children: Seq::new(
            n.children@.len(),
            |i: int| if 0 <= i < n.children@.len() {
                node_view(n.children@[i])
            } else {
                NodeView { node_type: NodeTypeView::Program, children: Seq::empty() }
            },
        ),
    }
}

impl DeepView for ParserNode {
    type V = NodeView;

    open spec fn deep_view(&self) -> NodeView {
        node_view(*self)
    }
}

impl Clone for ParserNode {
    /// A copy of the node and its children, equal to it throughout.
    fn clone(&self) -> (r: Self)
        ensures
            r.deep_view() == self.deep_view(),
        decreases self,
    {
        let node_type = match &self.node_type {
            NodeType::ConstInteger(n) => NodeType::ConstInteger(*n),
            NodeType::ConstFloat(s) => NodeType::ConstFloat(crate::text::clone_chars(s)),
            NodeType::Instruction(s) => NodeType::Instruction(crate::text::clone_chars(s)),
            NodeType::CompilerInstruction(s) => NodeType::CompilerInstruction(
                crate::text::clone_chars(s)),
            NodeType::Label(s) => NodeType::Label(crate::text::clone_chars(s)),
            NodeType::Identifier(s) => NodeType::Identifier(crate::text::clone_chars(s)),
            NodeType::Register(s) => NodeType::Register(crate::text::clone_chars(s)),
            NodeType::String(s) => NodeType::String(crate::text::clone_chars(s)),
            NodeType::Expression(e) => NodeType::Expression(*e),
            NodeType::Program => NodeType::Program,
        };
        let mut children: Vec<ParserNode> = Vec::new();
        let mut i: usize = 0;
        while i < self.children.len()
            invariant
                i <= self.children@.len(),
                children.deep_view() =~= self.children.deep_view().subrange(0, i as int),
            decreases self.children@.len() - i, 0nat,
        {
            let ghost pre = children.deep_view();
            let c = self.children[i].clone();
            let ghost cv = c.deep_view();
            children.push(c);
            i = i + 1;
            proof {
                assert(children.deep_view() =~= pre.push(cv));
                assert(cv == self.children.deep_view()[i - 1]);
                assert(children.deep_view()
                    =~= self.children.deep_view().subrange(0, i as int));
            }
        }
        let r = ParserNode { node_type, children };
        proof {
            let a = r.deep_view().children;
            let b = r.children.deep_view();
            assert forall|ix: int| 0 <= ix < a.len() implies a[ix] == b[ix] by {}
            assert(a =~= b);
            let c = self.deep_view().children;
            let d = self.children.deep_view();
            assert forall|ix: int| 0 <= ix < c.len() implies c[ix] == d[ix] by {}
            assert(c =~= d);
            assert(self.children.deep_view().subrange(0, self.children@.len() as int)
                =~= self.children.deep_view());
        }
        r
    }
}

/// A node's view lists exactly its children's views.
pub proof fn lemma_node_children(n: ParserNode)
    ensures
        n.deep_view().children == n.children.deep_view(),
{
    let a = n.deep_view().children;
    let b = n.children.deep_view();
    assert forall|ix: int| 0 <= ix < a.len() implies a[ix] == b[ix] by {}
    assert(a =~= b);
}

impl ParserNode {
    /// A fresh program node without children.
    pub fn new() -> (r: Self)
        ensures
            r.deep_view().node_type == NodeTypeView::Program,
            r.deep_view().children.len() == 0,
    {
        ParserNode { children: Vec::new(), node_type: NodeType::Program }
    }

    /// A leaf node of the given type.
    pub fn leaf(node_type: NodeType) -> (r: Self)
        ensures
            r.deep_view() == (NodeView {
                node_type: node_type.deep_view(),
                children: Seq::<NodeView>::empty(),
            }),
    {
        let r = ParserNode { node_type, children: Vec::new() };
        proof {
            assert(r.deep_view().children =~= Seq::<NodeView>::empty());
        }
        r
    }
}

/// The name a register code of this width prints as.
pub open spec fn spec_reg32_name(idx: u8) -> Option<Seq<char>> {
    if idx == 0u8 { Some("r0"@) }
    else if idx == 1u8 { Some("r1"@) }
    else if idx == 2u8 { Some("r2"@) }
    else if idx == 3u8 { Some("r3"@) }
    else if idx == 4u8 { Some("r4"@) }
    else if idx == 5u8 { Some("r5"@) }
    else if idx == 6u8 { Some("r6"@) }
    else if idx == 7u8 { Some("r7"@) }
    else if idx == 8u8 { Some("r8"@) }
    else if idx == 9u8 { Some("r9"@) }
    else if idx == 10u8 { Some("ra"@) }
    else if idx == 11u8 { Some("rb"@) }
    else if idx == 12u8 { Some("rc"@) }
    else if idx == 13u8 { Some("rd"@) }
    else if idx == 14u8 { Some("re"@) }
    else if idx == 15u8 { Some("rf"@) }
    else if idx == 16u8 { Some("ip"@) }
    else if idx == 17u8 { Some("sr"@) }
    else if idx == 18u8 { Some("mfr"@) }
    else if idx == 19u8 { Some("sp"@) }
    else if idx == 20u8 { Some("bp"@) }
    else if idx == 21u8 { Some("tptr"@) }
    else { None }
}

/// The name a register code of this width prints as.
pub open spec fn spec_reg16_name(idx: u8) -> Option<Seq<char>> {
    if idx == 0u8 { Some("r00"@) }
    else if idx == 1u8 { Some("r01"@) }
    else if idx == 2u8 { Some("r10"@) }
    else if idx == 3u8 { Some("r11"@) }
    else if idx == 4u8 { Some("r20"@) }
    else if idx == 5u8 { Some("r21"@) }
    else if idx == 6u8 { Some("r30"@) }
    else if idx == 7u8 { Some("r31"@) }
    else if idx == 8u8 { Some("r40"@) }
    else if idx == 9u8 { Some("r41"@) }
    else if idx == 10u8 { Some("r50"@) }
    else if idx == 11u8 { Some("r51"@) }
    else if idx == 12u8 { Some("r60"@) }
    else if idx == 13u8 { Some("r61"@) }
    else if idx == 14u8 { Some("r70"@) }
    else if idx == 15u8 { Some("r71"@) }
    else if idx == 16u8 { Some("r80"@) }
    else if idx == 17u8 { Some("r81"@) }
    else if idx == 18u8 { Some("r90"@) }
    else if idx == 19u8 { Some("r91"@) }
    else if idx == 20u8 { Some("ra0"@) }
    else if idx == 21u8 { Some("ra1"@) }
    else if idx == 22u8 { Some("rb0"@) }
    else if idx == 23u8 { Some("rb1"@) }
    else if idx == 24u8 { Some("rc0"@) }
    else if idx == 25u8 { Some("rc1"@) }
    else if idx == 26u8 { Some("rd0"@) }
    else if idx == 27u8 { Some("rd1"@) }
    else if idx == 28u8 { Some("re0"@) }
    else if idx == 29u8 { Some("re1"@) }
    else if idx == 30u8 { Some("rf0"@) }
    else if idx == 31u8 { Some("rf1"@) }
    else { None }
}

/// The name a register code of this width prints as.
pub open spec fn spec_reg8_name(idx: u8) -> Option<Seq<char>> {
    if idx == 0u8 { Some("r00l"@) }
    else if idx == 1u8 { Some("r00h"@) }
    else if idx == 2u8 { Some("r01l"@) }
    else if idx == 3u8 { Some("r01h"@) }
    else if idx == 4u8 { Some("r10l"@) }
    else if idx == 5u8 { Some("r10h"@) }
    else if idx == 6u8 { Some("r11l"@) }
    else if idx == 7u8 { Some("r11h"@) }
    else if idx == 8u8 { Some("r20l"@) }
    else if idx == 9u8 { Some("r20h"@) }
    else if idx == 10u8 { Some("r21l"@) }
    else if idx == 11u8 { Some("r21h"@) }
    else if idx == 12u8 { Some("r30l"@) }
    else if idx == 13u8 { Some("r30h"@) }
    else if idx == 14u8 { Some("r31l"@) }
    else if idx == 15u8 { Some("r31h"@) }
    else if idx == 16u8 { Some("r40l"@) }
    else if idx == 17u8 { Some("r40h"@) }
    else if idx == 18u8 { Some("r41l"@) }
    else if idx == 19u8 { Some("r41h"@) }
    else if idx == 20u8 { Some("r50l"@) }
    else if idx == 21u8 { Some("r50h"@) }
    else if idx == 22u8 { Some("r51l"@) }
    else if idx == 23u8 { Some("r51h"@) }
    else if idx == 24u8 { Some("r60l"@) }
    else if idx == 25u8 { Some("r60h"@) }
    else if idx == 26u8 { Some("r61l"@) }
    else if idx == 27u8 { Some("r61h"@) }
    else if idx == 28u8 { Some("r70l"@) }
    else if idx == 29u8 { Some("r70h"@) }
    else if idx == 30u8 { Some("r71l"@) }
    else if idx == 31u8 { Some("r71h"@) }
    else { None }
}

/// Whether a name denotes a register of any width.
pub open spec fn spec_has_key(name: Seq<char>) -> bool {
    spec_reg32(name) is Some || spec_reg16(name) is Some || spec_reg8(name) is Some
}

impl Registers {
    pub fn new() -> (r: Self) {
        Registers {}
    }

    /// The name a register code of this width prints as.
    pub fn get_name32(&self, idx: u8) -> (r: Option<Vec<char>>)
        ensures
            match spec_reg32_name(idx) {
                Some(nm) => r is Some && r->Some_0@ == nm,
                None => r is None,
            },
    {
        if idx == 0 { Some(crate::text::chars_of("r0")) }
        else if idx == 1 { Some(crate::text::chars_of("r1")) }
        else if idx == 2 { Some(crate::text::chars_of("r2")) }
        else if idx == 3 { Some(crate::text::chars_of("r3")) }
        else if idx == 4 { Some(crate::text::chars_of("r4")) }
        else if idx == 5 { Some(crate::text::chars_of("r5")) }
        else if idx == 6 { Some(crate::text::chars_of("r6")) }
        else if idx == 7 { Some(crate::text::chars_of("r7")) }
        else if idx == 8 { Some(crate::text::chars_of("r8")) }
        else if idx == 9 { Some(crate::text::chars_of("r9")) }
        else if idx == 10 { Some(crate::text::chars_of("ra")) }
        else if idx == 11 { Some(crate::text::chars_of("rb")) }
        else if idx == 12 { Some(crate::text::chars_of("rc")) }
        else if idx == 13 { Some(crate::text::chars_of("rd")) }
        else if idx == 14 { Some(crate::text::chars_of("re")) }
        else if idx == 15 { Some(crate::text::chars_of("rf")) }
        else if idx == 16 { Some(crate::text::chars_of("ip")) }
        else if idx == 17 { Some(crate::text::chars_of("sr")) }
        else if idx == 18 { Some(crate::text::chars_of("mfr")) }
        else if idx == 19 { Some(crate::text::chars_of("sp")) }
        else if idx == 20 { Some(crate::text::chars_of("bp")) }
        else if idx == 21 { Some(crate::text::chars_of("tptr")) }
        else { None }
    }

    /// The name a register code of this width prints as.
    pub fn get_name16(&self, idx: u8) -> (r: Option<Vec<char>>)
        ensures
            match spec_reg16_name(idx) {
                Some(nm) => r is Some && r->Some_0@ == nm,
                None => r is None,
            },
    {
        if idx == 0 { Some(crate::text::chars_of("r00")) }
        else if idx == 1 { Some(crate::text::chars_of("r01")) }
        else if idx == 2 { Some(crate::text::chars_of("r10")) }
        else if idx == 3 { Some(crate::text::chars_of("r11")) }
        else if idx == 4 { Some(crate::text::chars_of("r20")) }
        else if idx == 5 { Some(crate::text::chars_of("r21")) }
        else if idx == 6 { Some(crate::text::chars_of("r30")) }
        else if idx == 7 { Some(crate::text::chars_of("r31")) }
        else if idx == 8 { Some(crate::text::chars_of("r40")) }
        else if idx == 9 { Some(crate::text::chars_of("r41")) }
        else if idx == 10 { Some(crate::text::chars_of("r50")) }
        else if idx == 11 { Some(crate::text::chars_of("r51")) }
        else if idx == 12 { Some(crate::text::chars_of("r60")) }
        else if idx == 13 { Some(crate::text::chars_of("r61")) }
        else if idx == 14 { Some(crate::text::chars_of("r70")) }
        else if idx == 15 { Some(crate::text::chars_of("r71")) }
        else if idx == 16 { Some(crate::text::chars_of("r80")) }
        else if idx == 17 { Some(crate::text::chars_of("r81")) }
        else if idx == 18 { Some(crate::text::chars_of("r90")) }
        else if idx == 19 { Some(crate::text::chars_of("r91")) }
        else if idx == 20 { Some(crate::text::chars_of("ra0")) }
        else if idx == 21 { Some(crate::text::chars_of("ra1")) }
        else if idx == 22 { Some(crate::text::chars_of("rb0")) }
        else if idx == 23 { Some(crate::text::chars_of("rb1")) }
        else if idx == 24 { Some(crate::text::chars_of("rc0")) }
        else if idx == 25 { Some(crate::text::chars_of("rc1")) }
        else if idx == 26 { Some(crate::text::chars_of("rd0")) }
        else if idx == 27 { Some(crate::text::chars_of("rd1")) }
        else if idx == 28 { Some(crate::text::chars_of("re0")) }
        else if idx == 29 { Some(crate::text::chars_of("re1")) }
        else if idx == 30 { Some(crate::text::chars_of("rf0")) }
        else if idx == 31 { Some(crate::text::chars_of("rf1")) }
        else { None }
    }

    /// The name a register code of this width prints as.
    pub fn get_name8(&self, idx: u8) -> (r: Option<Vec<char>>)
        ensures
            match spec_reg8_name(idx) {
                Some(nm) => r is Some && r->Some_0@ == nm,
                None => r is None,
            },
    {
        if idx == 0 { Some(crate::text::chars_of("r00l")) }
        else if idx == 1 { Some(crate::text::chars_of("r00h")) }
        else if idx == 2 { Some(crate::text::chars_of("r01l")) }
        else if idx == 3 { Some(crate::text::chars_of("r01h")) }
        else if idx == 4 { Some(crate::text::chars_of("r10l")) }
        else if idx == 5 { Some(crate::text::chars_of("r10h")) }
        else if idx == 6 { Some(crate::text::chars_of("r11l")) }
        else if idx == 7 { Some(crate::text::chars_of("r11h")) }
        else if idx == 8 { Some(crate::text::chars_of("r20l")) }
        else if idx == 9 { Some(crate::text::chars_of("r20h")) }
        else if idx == 10 { Some(crate::text::chars_of("r21l")) }
        else if idx == 11 { Some(crate::text::chars_of("r21h")) }
        else if idx == 12 { Some(crate::text::chars_of("r30l")) }
        else if idx == 13 { Some(crate::text::chars_of("r30h")) }
        else if idx == 14 { Some(crate::text::chars_of("r31l")) }
        else if idx == 15 { Some(crate::text::chars_of("r31h")) }
        else if idx == 16 { Some(crate::text::chars_of("r40l")) }
        else if idx == 17 { Some(crate::text::chars_of("r40h")) }
        else if idx == 18 { Some(crate::text::chars_of("r41l")) }
        else if idx == 19 { Some(crate::text::chars_of("r41h")) }
        else if idx == 20 { Some(crate::text::chars_of("r50l")) }
        else if idx == 21 { Some(crate::text::chars_of("r50h")) }
        else if idx == 22 { Some(crate::text::chars_of("r51l")) }
        else if idx == 23 { Some(crate::text::chars_of("r51h")) }
        else if idx == 24 { Some(crate::text::chars_of("r60l")) }
        else if idx == 25 { Some(crate::text::chars_of("r60h")) }
        else if idx == 26 { Some(crate::text::chars_of("r61l")) }
        else if idx == 27 { Some(crate::text::chars_of("r61h")) }
        else if idx == 28 { Some(crate::text::chars_of("r70l")) }
        else if idx == 29 { Some(crate::text::chars_of("r70h")) }
        else if idx == 30 { Some(crate::text::chars_of("r71l")) }
        else if idx == 31 { Some(crate::text::chars_of("r71h")) }
        else { None }
    }

    /// Whether a name denotes a register of any width.
    pub fn has_key(&self, key: &[char]) -> (r: bool)
        ensures
            r == spec_has_key(key@),
    {
        self.get32(key).is_some() || self.get16(key).is_some() || self.get8(key).is_some()
    }
}

// ---------------------------------------------------------------------------
// Failures.

/// The mathematical image of a parse failure.
pub ghost enum ParseErrView {
    UnexpectedToken { line: nat, column: nat },
    UnexpectedEnd,
    BadInteger { line: nat, column: nat },
    BadChar { line: nat, column: nat },
    StringNotAllowed { line: nat, column: nat },
    RegisterNotAllowed { line: nat, column: nat },
    FoldOverflow { line: nat, column: nat },
}

/// A parse failure, with the position of the offending token where one
/// exists.  `FoldOverflow` reports constant folding that leaves the 64-bit
/// range or divides by zero.
#[derive(Clone, Copy, Debug, PartialEq, Eq, Structural)]
pub enum ParseError {
    UnexpectedToken { line: usize, column: usize },
    UnexpectedEnd,
    BadInteger { line: usize, column: usize },
    BadChar { line: usize, column: usize },
    StringNotAllowed { line: usize, column: usize },
    RegisterNotAllowed { line: usize, column: usize },
    FoldOverflow { line: usize, column: usize },
}

impl DeepView for ParseError {
    type V = ParseErrView;

    open spec fn deep_view(&self) -> ParseErrView {
        match self {
            ParseError::UnexpectedToken { line, column } => ParseErrView::UnexpectedToken {
                line: *line as nat,
                column: *column as nat,
            },
            ParseError::UnexpectedEnd => ParseErrView::UnexpectedEnd,
            ParseError::BadInteger { line, column } => ParseErrView::BadInteger {
                line: *line as nat,
                column: *column as nat,
            },
            ParseError::BadChar { line, column } => ParseErrView::BadChar {
                line: *line as nat,
                column: *column as nat,
            },
            ParseError::StringNotAllowed { line, column } => ParseErrView::StringNotAllowed {
                line: *line as nat,
                column: *column as nat,
            },
            ParseError::RegisterNotAllowed { line, column } => ParseErrView::RegisterNotAllowed {
                line: *line as nat,
                column: *column as nat,
            },
            ParseError::FoldOverflow { line, column } => ParseErrView::FoldOverflow {
                line: *line as nat,
                column: *column as nat,
            },
        }
    }
}

// ---------------------------------------------------------------------------
// Integer literals.

/// The value of one digit in the given base, if it is a digit of that base.
pub open spec fn spec_digit_val(c: char, base: int) -> Option<int> {
    let v: int = if '0' <= c && c <= '9' {
        c as int - '0' as int
    } else if 'a' <= c && c <= 'f' {
        c as int - 'a' as int + 10
    } else if 'A' <= c && c <= 'F' {
        c as int - 'A' as int + 10
    } else {
        -1
    };
    if 0 <= v && v < base {
        Some(v)
    } else {
        None
    }
}

/// The non-negative value of a digit string in the given base; `None` when
/// the string is empty or holds a character that is no digit of the base.
pub open spec fn spec_radix_val(s: Seq<char>, base: int) -> Option<int>
    decreases s.len(),
{
    if s.len() == 0 {
        None
    } else if s.len() == 1 {
        spec_digit_val(s[0], base)
    } else {
        match (spec_radix_val(s.drop_last(), base), spec_digit_val(s.last(), base)) {
            (Some(v), Some(d)) => Some(v * base + d),
            _ => None,
        }
    }
}

/// The value of an integer literal: a `0x`, `0b` or `0d` prefix picks the
/// base, decimal is the default, and a value beyond `i64::MAX` is refused.
pub open spec fn spec_parse_int(s: Seq<char>) -> Option<i64> {
    let body_base: (Seq<char>, int) = if s.len() >= 2 && s[0] == '0' && s[1] == 'x' {
        (s.skip(2), 16)
    } else if s.len() >= 2 && s[0] == '0' && s[1] == 'b' {
        (s.skip(2), 2)
    } else if s.len() >= 2 && s[0] == '0' && s[1] == 'd' {
        (s.skip(2), 10)
    } else {
        (s, 10)
    };
    match spec_radix_val(body_base.0, body_base.1) {
        Some(v) => if v <= i64::MAX {
            Some(v as i64)
        } else {
            None
        },
        None => None,
    }
}

proof fn lemma_radix_val_bounds(s: Seq<char>, base: int)
    requires
        base >= 2,
        spec_radix_val(s, base) is Some,
    ensures
        spec_radix_val(s, base)->Some_0 >= 0,
    decreases s.len(),
{
    if s.len() > 1 {
        lemma_radix_val_bounds(s.drop_last(), base);
    }
}

/// Extending a digit string keeps it parsable only if its prefixes are,
/// and never shrinks its value.
proof fn lemma_radix_val_prefix(s: Seq<char>, base: int, k: int)
    requires
        base >= 2,
        1 <= k <= s.len(),
    ensures
        spec_radix_val(s, base) is Some ==> spec_radix_val(s.subrange(0, k), base) is Some
            && spec_radix_val(s.subrange(0, k), base)->Some_0 <= spec_radix_val(s, base)->Some_0,
    decreases s.len(),
{
    if spec_radix_val(s, base) is Some {
        lemma_radix_val_bounds(s, base);
        if k == s.len() {
            assert(s.subrange(0, k) =~= s);
        } else {
            let v = spec_radix_val(s.drop_last(), base)->Some_0;
            let d = spec_digit_val(s.last(), base)->Some_0;
            lemma_radix_val_bounds(s.drop_last(), base);
            lemma_radix_val_prefix(s.drop_last(), base, k);
            assert(s.drop_last().subrange(0, k) =~= s.subrange(0, k));
            assert(v * base >= v) by (nonlinear_arith)
                requires
                    v >= 0,
                    base >= 2,
            ;
            assert(spec_radix_val(s, base)->Some_0 == v * base + d);
            assert(d >= 0);
        }
    }
}

fn digit_val(c: char, base: i64) -> (r: Option<i64>)
    requires
        2 <= base <= 16,
    ensures
        match spec_digit_val(c, base as int) {
            Some(v) => r is Some && r->Some_0 == v,
            None => r is None,
        },
{
    let v: i64 = if '0' <= c && c <= '9' {
        (c as u32 as i64) - ('0' as u32 as i64)
    } else if 'a' <= c && c <= 'f' {
        (c as u32 as i64) - ('a' as u32 as i64) + 10
    } else if 'A' <= c && c <= 'F' {
        (c as u32 as i64) - ('A' as u32 as i64) + 10
    } else {
        -1
    };
    if 0 <= v && v < base {
        Some(v)
    } else {
        None
    }
}

/// Reads an integer literal.
#[verifier::loop_isolation(false)]
pub fn parse_int(s: &[char]) -> (r: Option<i64>)
    ensures
        r == spec_parse_int(s@),
{
    let n = s.len();
    let base: i64;
    let start: usize;
    if n >= 2 && s[0] == '0' && s[1] == 'x' {
        base = 16;
        start = 2;
    } else if n >= 2 && s[0] == '0' && s[1] == 'b' {
        base = 2;
        start = 2;
    } else if n >= 2 && s[0] == '0' && s[1] == 'd' {
        base = 10;
        start = 2;
    } else {
        base = 10;
        start = 0;
    }
    let ghost body = s@.skip(start as int);
    proof {
        assert(s@.skip(0) =~= s@);
    }
    if start >= n {
        return None;
    }
    let mut acc: i64 = 0;
    let mut i: usize = start;
    proof {
        assert(body.subrange(0, 0) =~= Seq::<char>::empty());
    }
    while i < n
        invariant
            start < n,
            start <= i <= n,
            n == s@.len(),
            body == s@.skip(start as int),
            2 <= base <= 16,
            acc >= 0,
            i == start ==> acc == 0,
            i > start ==> spec_radix_val(body.subrange(0, i - start), base as int)
                == Some(acc as int),
        decreases n - i,
    {
        let ghost k = i - start;
        proof {
            assert(body[k as int] == s@[i as int]);
            assert(body.subrange(0, k + 1).drop_last() =~= body.subrange(0, k as int));
            assert(body.subrange(0, k + 1).last() == body[k as int]);
        }
        let d = match digit_val(s[i], base) {
            Some(d) => d,
            None => {
                proof {
                    if spec_radix_val(body, base as int) is Some {
                        lemma_radix_val_prefix(body, base as int, k + 1);
                    }
                }
                return None;
            },
        };
        let next = match acc.checked_mul(base) {
            Some(m) => m.checked_add(d),
            None => None,
        };
        match next {
            Some(v) => {
                acc = v;
            },
            None => {
                proof {
                    if spec_radix_val(body, base as int) is Some {
                        lemma_radix_val_bounds(body, base as int);
                        lemma_radix_val_prefix(body, base as int, k + 1);
                    }
                }
                return None;
            },
        }
        i = i + 1;
    }
    proof {
        assert(body.subrange(0, n - start) =~= body);
    }
    Some(acc)
}

/// The first byte of a character's UTF-8 encoding.
pub open spec fn spec_utf8_first_byte(c: char) -> u8 {
    let u = c as u32;
    if u < 0x80 {
        u as u8
    } else if u < 0x800 {
        (0xC0u32 | (u >> 6)) as u8
    } else if u < 0x10000 {
        (0xE0u32 | (u >> 12)) as u8
    } else {
        (0xF0u32 | (u >> 18)) as u8
    }
}

fn utf8_first_byte(c: char) -> (r: u8)
    ensures
        r == spec_utf8_first_byte(c),
{
    let u = c as u32;
    if u < 0x80 {
        u as u8
    } else if u < 0x800 {
        (0xC0u32 | (u >> 6)) as u8
    } else if u < 0x10000 {
        (0xE0u32 | (u >> 12)) as u8
    } else {
        (0xF0u32 | (u >> 18)) as u8
    }
}

// ---------------------------------------------------------------------------
// The grammar.

/// A leaf node.
pub open spec fn leafv(t: NodeTypeView) -> NodeView {
    NodeView { node_type: t, children: Seq::empty() }
}

/// Clamps a position into a range; parse results always lie inside it, so
/// this only shapes the termination argument.
pub open spec fn clip_pos(j: nat, lo: nat, hi: nat) -> nat {
    if j < lo {
        lo
    } else if j > hi {
        hi
    } else {
        j
    }
}

pub open spec fn in_i64(v: int) -> bool {
    i64::MIN <= v <= i64::MAX
}

/// Division truncating toward zero, as the machine divides.
pub open spec fn trunc_div(x: int, d: int) -> int
    recommends
        d != 0,
{
    if x == 0 {
        0
    } else if x > 0 && d > 0 {
        x / d
    } else if x < 0 && d < 0 {
        (x * -1) / (d * -1)
    } else if x < 0 {
        ((x * -1) / d) * -1
    } else {
        (x / (d * -1)) * -1
    }
}

/// The binary operator a token stands for.
pub open spec fn spec_binop_of(k: LexerTokenType) -> Option<BinaryOp> {
    if k == LexerTokenType::Plus {
        Some(BinaryOp::Addition)
    } else if k == LexerTokenType::Minus {
        Some(BinaryOp::Subtraction)
    } else if k == LexerTokenType::Multiply {
        Some(BinaryOp::Multiplication)
    } else if k == LexerTokenType::Divide {
        Some(BinaryOp::Division)
    } else {
        None
    }
}

/// A binary expression node: two integer literals fold to one constant
/// (an out-of-range result or division by zero is an error); anything else
/// stays a symbolic expression node.
pub open spec fn spec_make_binary(
    op: BinaryOp,
    lhs: NodeView,
    rhs: NodeView,
    line: nat,
    column: nat,
) -> Result<NodeView, ParseErrView> {
    if lhs.node_type matches NodeTypeView::ConstInteger(a)
        && rhs.node_type matches NodeTypeView::ConstInteger(b) {
        let a = lhs.node_type->ConstInteger_0;
        let b = rhs.node_type->ConstInteger_0;
        match op {
            BinaryOp::Addition => if in_i64(a + b) {
                Ok(leafv(NodeTypeView::ConstInteger((a + b) as i64)))
            } else {
                Err(ParseErrView::FoldOverflow { line, column })
            },
            BinaryOp::Subtraction => if in_i64(a - b) {
                Ok(leafv(NodeTypeView::ConstInteger((a - b) as i64)))
            } else {
                Err(ParseErrView::FoldOverflow { line, column })
            },
            BinaryOp::Multiplication => if in_i64(a * b) {
                Ok(leafv(NodeTypeView::ConstInteger((a * b) as i64)))
            } else {
                Err(ParseErrView::FoldOverflow { line, column })
            },
            BinaryOp::Division => if b == 0 || !in_i64(trunc_div(a as int, b as int)) {
                Err(ParseErrView::FoldOverflow { line, column })
            } else {
                Ok(leafv(NodeTypeView::ConstInteger(trunc_div(a as int, b as int) as i64)))
            },
        }
    } else {
        Ok(NodeView {
            node_type: NodeTypeView::Expression(ExpressionType::Binary(op)),
            children: seq![lhs, rhs],
        })
    }
}

/// A negation node: an integer literal folds to its negation.
pub open spec fn spec_make_negate(nd: NodeView, line: nat, column: nat) -> Result<
    NodeView,
    ParseErrView,
> {
    if nd.node_type matches NodeTypeView::ConstInteger(v) {
        let v = nd.node_type->ConstInteger_0;
        if in_i64(0 - v) {
            Ok(leafv(NodeTypeView::ConstInteger((0 - v) as i64)))
        } else {
            Err(ParseErrView::FoldOverflow { line, column })
        }
    } else {
        Ok(NodeView {
            node_type: NodeTypeView::Expression(ExpressionType::Unary(UnaryOp::Negate)),
            children: seq![nd],
        })
    }
}

/// One expression starting at `i`: a literal, an identifier or register, a
/// signed expression, or a parenthesized binary expression.
pub open spec fn spec_parse_expression(
    s: Seq<TokenView>,
    i: nat,
    use_registers: bool,
    str_available: bool,
) -> Result<(NodeView, nat), ParseErrView>
    decreases s.len() - i,
    when i <= s.len()
{
    if i >= s.len() {
        Err(ParseErrView::UnexpectedEnd)
    } else {
        let t = s[i as int];
        if t.kind == LexerTokenType::Integer {
            match spec_parse_int(t.slice) {
                Some(v) => Ok((leafv(NodeTypeView::ConstInteger(v)), i + 1)),
                None => Err(ParseErrView::BadInteger { line: t.line, column: t.column }),
            }
        } else if t.kind == LexerTokenType::Character {
            if t.slice.len() >= 3 {
                Ok((leafv(NodeTypeView::ConstInteger(spec_utf8_first_byte(t.slice[1]) as i64)),
                    i + 1))
            } else {
                Err(ParseErrView::BadChar { line: t.line, column: t.column })
            }
        } else if t.kind == LexerTokenType::LParen {
            match spec_parse_expression(s, i + 1, use_registers, str_available) {
                Err(e) => Err(e),
                Ok((lhs, j0)) => {
                    let j = clip_pos(j0, i + 2, s.len());
                    if j >= s.len() {
                        Err(ParseErrView::UnexpectedEnd)
                    } else {
                        let ot = s[j as int];
                        match spec_binop_of(ot.kind) {
                            None => Err(ParseErrView::UnexpectedToken {
                                line: ot.line,
                                column: ot.column,
                            }),
                            Some(op) => match spec_parse_expression(s, j + 1, use_registers,
                                str_available) {
                                Err(e) => Err(e),
                                Ok((rhs, k0)) => {
                                    let k = clip_pos(k0, j + 2, s.len());
                                    if k >= s.len() {
                                        Err(ParseErrView::UnexpectedEnd)
                                    } else if s[k as int].kind != LexerTokenType::RParen {
                                        Err(ParseErrView::UnexpectedToken {
                                            line: s[k as int].line,
                                            column: s[k as int].column,
                                        })
                                    } else {
                                        match spec_make_binary(op, lhs, rhs, ot.line, ot.column) {
                                            Ok(nd) => Ok((nd, k + 1)),
                                            Err(e) => Err(e),
                                        }
                                    }
                                },
                            },
                        }
                    }
                },
            }
        } else if t.kind == LexerTokenType::String {
            if !str_available {
                Err(ParseErrView::StringNotAllowed { line: t.line, column: t.column })
            } else if t.slice.len() >= 2 {
                Ok((leafv(NodeTypeView::String(t.slice.subrange(1, t.slice.len() - 1))), i + 1))
            } else {
                Err(ParseErrView::UnexpectedToken { line: t.line, column: t.column })
            }
        } else if t.kind == LexerTokenType::FloatingPoint {
            Ok((leafv(NodeTypeView::ConstFloat(t.slice)), i + 1))
        } else if t.kind == LexerTokenType::Minus {
            match spec_parse_expression(s, i + 1, use_registers, str_available) {
                Err(e) => Err(e),
                Ok((nd, j)) => match spec_make_negate(nd, t.line, t.column) {
                    Ok(nd2) => Ok((nd2, j)),
                    Err(e) => Err(e),
                },
            }
        } else if t.kind == LexerTokenType::Plus {
            match spec_parse_expression(s, i + 1, use_registers, str_available) {
                Err(e) => Err(e),
                Ok((nd, j)) => {
                    if nd.node_type matches NodeTypeView::ConstInteger(_) {
                        Ok((nd, j))
                    } else {
                        Ok((NodeView {
                            node_type: NodeTypeView::Expression(
                                ExpressionType::Unary(UnaryOp::Identity)),
                            children: seq![nd],
                        }, j))
                    }
                },
            }
        } else if t.kind == LexerTokenType::Identifier {
            if spec_has_key(t.slice) {
                if !use_registers {
                    Err(ParseErrView::RegisterNotAllowed { line: t.line, column: t.column })
                } else {
                    Ok((leafv(NodeTypeView::Register(t.slice)), i + 1))
                }
            } else {
                Ok((leafv(NodeTypeView::Identifier(t.slice)), i + 1))
            }
        } else {
            Err(ParseErrView::UnexpectedToken { line: t.line, column: t.column })
        }
    }
}

/// Comma-separated instruction arguments ending at a newline.
pub open spec fn spec_parse_iargs(s: Seq<TokenView>, j: nat) -> Result<
    (Seq<NodeView>, nat),
    ParseErrView,
>
    decreases s.len() - j,
    when j <= s.len()
{
    match spec_parse_expression(s, j, true, false) {
        Err(e) => Err(e),
        Ok((nd, k0)) => {
            let k = clip_pos(k0, j + 1, s.len());
            if k >= s.len() {
                Err(ParseErrView::UnexpectedEnd)
            } else if s[k as int].kind == LexerTokenType::Comma {
                match spec_parse_iargs(s, k + 1) {
                    Ok((rest, next)) => Ok((seq![nd] + rest, next)),
                    Err(e) => Err(e),
                }
            } else if s[k as int].kind == LexerTokenType::Newline {
                Ok((seq![nd], k + 1))
            } else {
                Err(ParseErrView::UnexpectedToken {
                    line: s[k as int].line,
                    column: s[k as int].column,
                })
            }
        },
    }
}

/// One instruction statement: the mnemonic, then comma-separated arguments
/// up to the end of the line.
pub open spec fn spec_parse_instruction(s: Seq<TokenView>, i: nat) -> Result<
    (NodeView, nat),
    ParseErrView,
>
    recommends
        i < s.len(),
{
    let t = s[i as int];
    if i + 1 >= s.len() {
        Ok((NodeView { node_type: NodeTypeView::Instruction(t.slice), children: Seq::empty() },
            i + 1))
    } else if s[i + 1 as int].kind == LexerTokenType::Newline {
        Ok((NodeView { node_type: NodeTypeView::Instruction(t.slice), children: Seq::empty() },
            i + 2))
    } else {
        match spec_parse_iargs(s, i + 1) {
            Ok((children, next)) => Ok((NodeView {
                node_type: NodeTypeView::Instruction(t.slice),
                children,
            }, next)),
            Err(e) => Err(e),
        }
    }
}

/// Directive arguments up to the end of the line; strings are allowed,
/// registers are not, and a comma after an argument is skipped.
pub open spec fn spec_parse_cargs(s: Seq<TokenView>, j: nat) -> Result<
    (Seq<NodeView>, nat),
    ParseErrView,
>
    decreases s.len() - j,
    when j <= s.len()
{
    if j >= s.len() {
        Err(ParseErrView::UnexpectedEnd)
    } else if s[j as int].kind == LexerTokenType::Newline {
        Ok((Seq::empty(), j + 1))
    } else {
        match spec_parse_expression(s, j, false, true) {
            Err(e) => Err(e),
            Ok((nd, k0)) => {
                let k = clip_pos(k0, j + 1, s.len());
                let k2: nat = if k < s.len() && s[k as int].kind == LexerTokenType::Comma {
                    k + 1
                } else {
                    k
                };
                match spec_parse_cargs(s, k2) {
                    Ok((rest, next)) => Ok((seq![nd] + rest, next)),
                    Err(e) => Err(e),
                }
            },
        }
    }
}

/// One compiler directive statement: the dotted name, then arguments up to
/// the end of the line.
pub open spec fn spec_parse_ci(s: Seq<TokenView>, i: nat) -> Result<(NodeView, nat), ParseErrView>
    recommends
        i < s.len(),
{
    let t = s[i as int];
    let name: Seq<char> = if t.slice.len() >= 1 {
        t.slice.subrange(1, t.slice.len() as int)
    } else {
        Seq::empty()
    };
    match spec_parse_cargs(s, i + 1) {
        Ok((children, next)) => Ok((NodeView {
            node_type: NodeTypeView::CompilerInstruction(name),
            children,
        }, next)),
        Err(e) => Err(e),
    }
}

/// One top-level statement, with the current outer label for sublabel
/// mangling: the node (none for a blank line), the next position, and the
/// outer label after the statement.
pub open spec fn spec_parse_top(s: Seq<TokenView>, i: nat, last: Seq<char>) -> Result<
    (Option<NodeView>, nat, Seq<char>),
    ParseErrView,
>
    recommends
        i < s.len(),
{
    let t = s[i as int];
    if t.kind == LexerTokenType::CompilerInstruction {
        match spec_parse_ci(s, i) {
            Ok((nd, next)) => Ok((Some(nd), next, last)),
            Err(e) => Err(e),
        }
    } else if t.kind == LexerTokenType::Identifier {
        match spec_parse_instruction(s, i) {
            Ok((nd, next)) => Ok((Some(nd), next, last)),
            Err(e) => Err(e),
        }
    } else if t.kind == LexerTokenType::Label {
        let txt: Seq<char> = if t.slice.len() >= 1 {
            t.slice.subrange(0, t.slice.len() - 1)
        } else {
            Seq::empty()
        };
        if txt.len() >= 1 && txt[0] == '@' {
            Ok((Some(leafv(NodeTypeView::Label(last + txt))), i + 1, last))
        } else {
            Ok((Some(leafv(NodeTypeView::Label(txt))), i + 1, txt))
        }
    } else if t.kind == LexerTokenType::Newline {
        Ok((None, i + 1, last))
    } else {
        Err(ParseErrView::UnexpectedToken { line: t.line, column: t.column })
    }
}

/// The statements of a whole token stream from `i` on.
pub open spec fn spec_parse_program(s: Seq<TokenView>, i: nat, last: Seq<char>) -> Result<
    Seq<NodeView>,
    ParseErrView,
>
    decreases s.len() - i,
    when i <= s.len()
{
    if i >= s.len() {
        Ok(Seq::empty())
    } else {
        match spec_parse_top(s, i, last) {
            Err(e) => Err(e),
            Ok((opt, next0, last2)) => {
                let next = clip_pos(next0, i + 1, s.len());
                match spec_parse_program(s, next, last2) {
                    Err(e) => Err(e),
                    Ok(rest) => match opt {
                        Some(nd) => Ok(seq![nd] + rest),
                        None => Ok(rest),
                    },
                }
            },
        }
    }
}

/// The syntax tree of a whole token stream: a program node over its
/// statements.
pub open spec fn spec_parse(s: Seq<TokenView>) -> Result<NodeView, ParseErrView> {
    match spec_parse_program(s, 0, Seq::empty()) {
        Ok(children) => Ok(NodeView { node_type: NodeTypeView::Program, children }),
        Err(e) => Err(e),
    }
}

// ---------------------------------------------------------------------------
// Executable mirror of the grammar.

fn binop_of(k: LexerTokenType) -> (r: Option<BinaryOp>)
    ensures
        r == spec_binop_of(k),
{
    if k == LexerTokenType::Plus {
        Some(BinaryOp::Addition)
    } else if k == LexerTokenType::Minus {
        Some(BinaryOp::Subtraction)
    } else if k == LexerTokenType::Multiply {
        Some(BinaryOp::Multiplication)
    } else if k == LexerTokenType::Divide {
        Some(BinaryOp::Division)
    } else {
        None
    }
}

fn make_binary(op: BinaryOp, lhs: ParserNode, rhs: ParserNode, line: usize, column: usize) -> (r:
    Result<ParserNode, ParseError>)
    ensures
        match spec_make_binary(op, lhs.deep_view(), rhs.deep_view(), line as nat, column as nat) {
            Ok(nd) => r is Ok && r->Ok_0.deep_view() == nd,
            Err(e) => r is Err && r->Err_0.deep_view() == e,
        },
{
    let ghost lhsv = lhs.deep_view();
    let ghost rhsv = rhs.deep_view();
    let folded: Option<Option<i64>> = match (&lhs.node_type, &rhs.node_type) {
        (NodeType::ConstInteger(a), NodeType::ConstInteger(b)) => {
            let a = *a;
            let b = *b;
            match op {
                BinaryOp::Addition => Some(a.checked_add(b)),
                BinaryOp::Subtraction => Some(a.checked_sub(b)),
                BinaryOp::Multiplication => Some(a.checked_mul(b)),
                BinaryOp::Division => Some(a.checked_div(b)),
            }
        },
        _ => None,
    };
    match folded {
        Some(Some(v)) => Ok(ParserNode::leaf(NodeType::ConstInteger(v))),
        Some(None) => Err(ParseError::FoldOverflow { line, column }),
        None => {
            let mut children: Vec<ParserNode> = Vec::new();
            children.push(lhs);
            children.push(rhs);
            let node = ParserNode {
                node_type: NodeType::Expression(ExpressionType::Binary(op)),
                children,
            };
            proof {
                assert(node.deep_view().children =~= seq![lhsv, rhsv]);
            }
            Ok(node)
        },
    }
}

fn make_negate(nd: ParserNode, line: usize, column: usize) -> (r: Result<ParserNode, ParseError>)
    ensures
        match spec_make_negate(nd.deep_view(), line as nat, column as nat) {
            Ok(out) => r is Ok && r->Ok_0.deep_view() == out,
            Err(e) => r is Err && r->Err_0.deep_view() == e,
        },
{
    let ghost ndv = nd.deep_view();
    match &nd.node_type {
        NodeType::ConstInteger(v) => {
            match (0i64).checked_sub(*v) {
                Some(n) => Ok(ParserNode::leaf(NodeType::ConstInteger(n))),
                None => Err(ParseError::FoldOverflow { line, column }),
            }
        },
        _ => {
            let mut children: Vec<ParserNode> = Vec::new();
            children.push(nd);
            let node = ParserNode {
                node_type: NodeType::Expression(ExpressionType::Unary(UnaryOp::Negate)),
                children,
            };
            proof {
                assert(node.deep_view().children =~= seq![ndv]);
            }
            Ok(node)
        },
    }
}

#[verifier::rlimit(100)]
fn parse_expression(s: &[LexerToken], i: usize, use_registers: bool, str_available: bool) -> (r:
    Result<(ParserNode, usize), ParseError>)
    requires
        i <= s@.len(),
    ensures
        match spec_parse_expression(s.deep_view(), i as nat, use_registers, str_available) {
            Ok((nd, next)) => r is Ok && r->Ok_0.0.deep_view() == nd && r->Ok_0.1 == next
                && i < next <= s@.len(),
            Err(e) => r is Err && r->Err_0.deep_view() == e,
        },
    decreases s@.len() - i,
{
    if i >= s.len() {
        return Err(ParseError::UnexpectedEnd);
    }
    let t = &s[i];
    if t.kind == LexerTokenType::Integer {
        match parse_int(t.slice.as_slice()) {
            Some(v) => Ok((ParserNode::leaf(NodeType::ConstInteger(v)), i + 1)),
            None => Err(ParseError::BadInteger { line: t.line, column: t.column }),
        }
    } else if t.kind == LexerTokenType::Character {
        if t.slice.len() >= 3 {
            let b = utf8_first_byte(t.slice[1]);
            Ok((ParserNode::leaf(NodeType::ConstInteger(b as i64)), i + 1))
        } else {
            Err(ParseError::BadChar { line: t.line, column: t.column })
        }
    } else if t.kind == LexerTokenType::LParen {
        let (lhs, j) = parse_expression(s, i + 1, use_registers, str_available)?;
        if j >= s.len() {
            return Err(ParseError::UnexpectedEnd);
        }
        let ot = &s[j];
        let op = match binop_of(ot.kind) {
            Some(op) => op,
            None => {
                return Err(ParseError::UnexpectedToken { line: ot.line, column: ot.column });
            },
        };
        let (rhs, k) = parse_expression(s, j + 1, use_registers, str_available)?;
        if k >= s.len() {
            return Err(ParseError::UnexpectedEnd);
        }
        if s[k].kind != LexerTokenType::RParen {
            return Err(ParseError::UnexpectedToken { line: s[k].line, column: s[k].column });
        }
        let node = make_binary(op, lhs, rhs, ot.line, ot.column)?;
        Ok((node, k + 1))
    } else if t.kind == LexerTokenType::String {
        if !str_available {
            Err(ParseError::StringNotAllowed { line: t.line, column: t.column })
        } else if t.slice.len() >= 2 {
            let text = vstd::slice::slice_to_vec(
                vstd::slice::slice_subrange(t.slice.as_slice(), 1, t.slice.len() - 1));
            Ok((ParserNode::leaf(NodeType::String(text)), i + 1))
        } else {
            Err(ParseError::UnexpectedToken { line: t.line, column: t.column })
        }
    } else if t.kind == LexerTokenType::FloatingPoint {
        Ok((ParserNode::leaf(NodeType::ConstFloat(crate::text::clone_chars(&t.slice))), i + 1))
    } else if t.kind == LexerTokenType::Minus {
        let (nd, j) = parse_expression(s, i + 1, use_registers, str_available)?;
        let node = make_negate(nd, t.line, t.column)?;
        Ok((node, j))
    } else if t.kind == LexerTokenType::Plus {
        let (nd, j) = parse_expression(s, i + 1, use_registers, str_available)?;
        let is_const = match &nd.node_type {
            NodeType::ConstInteger(_) => true,
            _ => false,
        };
        if is_const {
            Ok((nd, j))
        } else {
            let ghost ndv = nd.deep_view();
            let mut children: Vec<ParserNode> = Vec::new();
            children.push(nd);
            let node = ParserNode {
                node_type: NodeType::Expression(ExpressionType::Unary(UnaryOp::Identity)),
                children,
            };
            proof {
                assert(node.deep_view().children =~= seq![ndv]);
            }
            Ok((node, j))
        }
    } else if t.kind == LexerTokenType::Identifier {
        let rgs = Registers::new();
        if rgs.has_key(t.slice.as_slice()) {
            if !use_registers {
                Err(ParseError::RegisterNotAllowed { line: t.line, column: t.column })
            } else {
                Ok((ParserNode::leaf(NodeType::Register(crate::text::clone_chars(&t.slice))),
                    i + 1))
            }
        } else {
            Ok((ParserNode::leaf(NodeType::Identifier(crate::text::clone_chars(&t.slice))), i + 1))
        }
    } else {
        Err(ParseError::UnexpectedToken { line: t.line, column: t.column })
    }
}

fn parse_iargs(s: &[LexerToken], j: usize) -> (r: Result<(Vec<ParserNode>, usize), ParseError>)
    requires
        j <= s@.len(),
    ensures
        match spec_parse_iargs(s.deep_view(), j as nat) {
            Ok((args, next)) => r is Ok && r->Ok_0.0.deep_view() == args && r->Ok_0.1 == next
                && j < next <= s@.len(),
            Err(e) => r is Err && r->Err_0.deep_view() == e,
        },
    decreases s@.len() - j,
{
    let (nd, k) = parse_expression(s, j, true, false)?;
    let ghost ndv = nd.deep_view();
    if k >= s.len() {
        return Err(ParseError::UnexpectedEnd);
    }
    if s[k].kind == LexerTokenType::Comma {
        let (mut rest, next) = parse_iargs(s, k + 1)?;
        let ghost restv = rest.deep_view();
        rest.insert(0, nd);
        proof {
            assert(rest.deep_view() =~= seq![ndv] + restv);
        }
        Ok((rest, next))
    } else if s[k].kind == LexerTokenType::Newline {
        let mut out: Vec<ParserNode> = Vec::new();
        out.push(nd);
        proof {
            assert(out.deep_view() =~= seq![ndv]);
        }
        Ok((out, k + 1))
    } else {
        Err(ParseError::UnexpectedToken { line: s[k].line, column: s[k].column })
    }
}

fn parse_instruction(s: &[LexerToken], i: usize) -> (r: Result<(ParserNode, usize), ParseError>)
    requires
        i < s@.len(),
    ensures
        match spec_parse_instruction(s.deep_view(), i as nat) {
            Ok((nd, next)) => r is Ok && r->Ok_0.0.deep_view() == nd && r->Ok_0.1 == next
                && i < next <= s@.len(),
            Err(e) => r is Err && r->Err_0.deep_view() == e,
        },
{
    let t = &s[i];
    let name = crate::text::clone_chars(&t.slice);
    if i + 1 >= s.len() {
        return Ok((ParserNode::leaf(NodeType::Instruction(name)), i + 1));
    }
    if s[i + 1].kind == LexerTokenType::Newline {
        return Ok((ParserNode::leaf(NodeType::Instruction(name)), i + 2));
    }
    let (children, next) = parse_iargs(s, i + 1)?;
    let node = ParserNode { node_type: NodeType::Instruction(name), children };
    proof {
        let a = node.deep_view().children;
        let b = node.children.deep_view();
        assert(a.len() == b.len());
        assert forall|ix: int| 0 <= ix < a.len() implies a[ix] == b[ix] by {}
        assert(a =~= b);
    }
    Ok((node, next))
}

fn parse_cargs(s: &[LexerToken], j: usize) -> (r: Result<(Vec<ParserNode>, usize), ParseError>)
    requires
        j <= s@.len(),
    ensures
        match spec_parse_cargs(s.deep_view(), j as nat) {
            Ok((args, next)) => r is Ok && r->Ok_0.0.deep_view() == args && r->Ok_0.1 == next
                && j < next <= s@.len(),
            Err(e) => r is Err && r->Err_0.deep_view() == e,
        },
    decreases s@.len() - j,
{
    if j >= s.len() {
        return Err(ParseError::UnexpectedEnd);
    }
    if s[j].kind == LexerTokenType::Newline {
        let out: Vec<ParserNode> = Vec::new();
        proof {
            assert(out.deep_view() =~= Seq::<NodeView>::empty());
        }
        return Ok((out, j + 1));
    }
    let (nd, k) = parse_expression(s, j, false, true)?;
    let ghost ndv = nd.deep_view();
    let k2: usize = if k < s.len() && s[k].kind == LexerTokenType::Comma {
        k + 1
    } else {
        k
    };
    let (mut rest, next) = parse_cargs(s, k2)?;
    let ghost restv = rest.deep_view();
    rest.insert(0, nd);
    proof {
        assert(rest.deep_view() =~= seq![ndv] + restv);
    }
    Ok((rest, next))
}

fn parse_compiler_instruction(s: &[LexerToken], i: usize) -> (r: Result<
    (ParserNode, usize),
    ParseError,
>)
    requires
        i < s@.len(),
    ensures
        match spec_parse_ci(s.deep_view(), i as nat) {
            Ok((nd, next)) => r is Ok && r->Ok_0.0.deep_view() == nd && r->Ok_0.1 == next
                && i < next <= s@.len(),
            Err(e) => r is Err && r->Err_0.deep_view() == e,
        },
{
    let t = &s[i];
    let name: Vec<char> = if t.slice.len() >= 1 {
        vstd::slice::slice_to_vec(
            vstd::slice::slice_subrange(t.slice.as_slice(), 1, t.slice.len()))
    } else {
        Vec::new()
    };
    let (children, next) = parse_cargs(s, i + 1)?;
    let node = ParserNode { node_type: NodeType::CompilerInstruction(name), children };
    proof {
        let a = node.deep_view().children;
        let b = node.children.deep_view();
        assert forall|ix: int| 0 <= ix < a.len() implies a[ix] == b[ix] by {}
        assert(a =~= b);
    }
    Ok((node, next))
}

fn parse_top(s: &[LexerToken], i: usize, last: &Vec<char>) -> (r: Result<
    (Option<ParserNode>, usize, Vec<char>),
    ParseError,
>)
    requires
        i < s@.len(),
    ensures
        match spec_parse_top(s.deep_view(), i as nat, last@) {
            Ok((opt, next, last2)) => r is Ok
                && (match opt {
                    Some(nd) => r->Ok_0.0 is Some && r->Ok_0.0->Some_0.deep_view() == nd,
                    None => r->Ok_0.0 is None,
                })
                && r->Ok_0.1 == next
                && r->Ok_0.2@ == last2
                && i < next <= s@.len(),
            Err(e) => r is Err && r->Err_0.deep_view() == e,
        },
{
    let t = &s[i];
    if t.kind == LexerTokenType::CompilerInstruction {
        let (nd, next) = parse_compiler_instruction(s, i)?;
        Ok((Some(nd), next, crate::text::clone_chars(last)))
    } else if t.kind == LexerTokenType::Identifier {
        let (nd, next) = parse_instruction(s, i)?;
        Ok((Some(nd), next, crate::text::clone_chars(last)))
    } else if t.kind == LexerTokenType::Label {
        let txt: Vec<char> = if t.slice.len() >= 1 {
            vstd::slice::slice_to_vec(
                vstd::slice::slice_subrange(t.slice.as_slice(), 0, t.slice.len() - 1))
        } else {
            Vec::new()
        };
        if txt.len() >= 1 && txt[0] == '@' {
            let mut label_text = crate::text::clone_chars(last);
            let mut tail = txt;
            label_text.append(&mut tail);
            Ok((Some(ParserNode::leaf(NodeType::Label(label_text))), i + 1,
                crate::text::clone_chars(last)))
        } else {
            let label_text = crate::text::clone_chars(&txt);
            Ok((Some(ParserNode::leaf(NodeType::Label(label_text))), i + 1, txt))
        }
    } else if t.kind == LexerTokenType::Newline {
        Ok((None, i + 1, crate::text::clone_chars(last)))
    } else {
        Err(ParseError::UnexpectedToken { line: t.line, column: t.column })
    }
}

/// The parser: accumulates statements into a program node and tracks the
/// current outer label for sublabel mangling.
pub struct Parser {
    pub root: ParserNode,
    pub last_label: Vec<char>,
}

impl Parser {
    pub fn new() -> (r: Self)
        ensures
            r.root.deep_view().node_type == NodeTypeView::Program,
            r.root.deep_view().children.len() == 0,
    {
        Parser { root: ParserNode::new(), last_label: Vec::new() }
    }

    /// Parses a whole token stream into this parser's root node.
    ///
    /// On success the root holds exactly the syntax tree that the grammar
    /// assigns to the stream.
    #[verifier::loop_isolation(false)]
    pub fn parse(&mut self, tokens: &Vec<LexerToken>) -> (r: Result<(), ParseError>)
        ensures
            match spec_parse(tokens.deep_view()) {
                Ok(nd) => r is Ok && final(self).root.deep_view() == nd,
                Err(e) => r is Err && r->Err_0.deep_view() == e,
            },
    {
        let s = tokens.as_slice();
        let ghost sv = s.deep_view();
        let n = s.len();
        let mut children: Vec<ParserNode> = Vec::new();
        let mut last: Vec<char> = Vec::new();
        let mut i: usize = 0;
        proof {
            assert(children.deep_view() =~= Seq::<NodeView>::empty());
            assert(last@ =~= Seq::<char>::empty());
            match spec_parse_program(sv, 0, Seq::empty()) {
                Ok(rest) => {
                    assert(children.deep_view() + rest =~= rest);
                },
                Err(e) => {},
            }
        }
        while i < n
            invariant
                n == sv.len(),
                i <= n,
                spec_parse_program(sv, 0, Seq::empty())
                    == (match spec_parse_program(sv, i as nat, last@) {
                        Ok(rest) => Ok::<Seq<NodeView>, ParseErrView>(
                            children.deep_view() + rest),
                        Err(e) => Err::<Seq<NodeView>, ParseErrView>(e),
                    }),
            decreases n - i,
        {
            let ghost pre = children.deep_view();
            let (opt, next, last2) = match parse_top(s, i, &last) {
                Ok(x) => x,
                Err(e) => {
                    return Err(e);
                },
            };
            match opt {
                Some(nd) => {
                    let ghost ndv = nd.deep_view();
                    children.push(nd);
                    proof {
                        assert(children.deep_view() =~= pre.push(ndv));
                    }
                    last = last2;
                    i = next;
                    proof {
                        match spec_parse_program(sv, i as nat, last@) {
                            Ok(rest) => {
                                assert(pre + (seq![ndv] + rest)
                                    =~= children.deep_view() + rest);
                            },
                            Err(e) => {},
                        }
                    }
                },
                None => {
                    last = last2;
                    i = next;
                },
            }
        }
        let root = ParserNode { node_type: NodeType::Program, children };
        proof {
            let a = root.deep_view().children;
            let b = root.children.deep_view();
            assert forall|ix: int| 0 <= ix < a.len() implies a[ix] == b[ix] by {}
            assert(a =~= b);
            assert(b + Seq::<NodeView>::empty() =~= b);
        }
        self.root = root;
        self.last_label = last;
        Ok(())
    }
}

/// Parses a token stream into a fresh syntax tree.
pub fn parse(tokens: &Vec<LexerToken>) -> (r: Result<ParserNode, ParseError>)
    ensures
        match spec_parse(tokens.deep_view()) {
            Ok(nd) => r is Ok && r->Ok_0.deep_view() == nd,
            Err(e) => r is Err && r->Err_0.deep_view() == e,
        },
{
    let mut p = Parser::new();
    match p.parse(tokens) {
        Ok(()) => Ok(p.root),
        Err(e) => Err(e),
    }
}

} // verus!
