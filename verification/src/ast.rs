//! The syntax tree as the lint rules see it: a table of nodes, each with
//! its kind and its parent.

use vstd::prelude::*;

verus! {

/// A stretch of the source text, from `start` up to, but not including, `end`.
#[derive(Debug, Clone, Copy, PartialEq, Eq, Structural)]
pub struct Span {
    pub start: u32,
    pub end: u32,
}

/// The operators that take two operands.
#[derive(Debug, Clone, Copy, PartialEq, Eq, Structural)]
pub enum BinaryOperator {
    Equality,
    Inequality,
    StrictEquality,
    StrictInequality,
    LessThan,
    LessEqualThan,
    GreaterThan,
    GreaterEqualThan,
    ShiftLeft,
    ShiftRight,
    ShiftRightZeroFill,
    Addition,
    Subtraction,
    Multiplication,
    Division,
    Remainder,
    BitwiseOR,
    BitwiseXOR,
    BitwiseAnd,
    In,
    Instanceof,
    Exponential,
}

impl BinaryOperator {
    /// Whether the operator tests for equality: `==`, `!=`, `===` or `!==`.
    pub open spec fn tests_equality(self) -> bool {
        self is Equality || self is Inequality || self is StrictEquality || self is StrictInequality
    }

    /// Whether the operator tests an order: `<`, `<=`, `>` or `>=`.
    pub open spec fn tests_order(self) -> bool {
        self is LessThan || self is LessEqualThan || self is GreaterThan || self is GreaterEqualThan
    }

    /// Whether the operator tests for equality: `==`, `!=`, `===` or `!==`.
    pub fn is_equality(self) -> (yes: bool)
        ensures
            yes == self.tests_equality(),
    {
        matches!(
            self,
            BinaryOperator::Equality | BinaryOperator::Inequality | BinaryOperator::StrictEquality
                | BinaryOperator::StrictInequality
        )
    }

    /// Whether the operator tests an order: `<`, `<=`, `>` or `>=`.
    pub fn is_compare(self) -> (yes: bool)
        ensures
            yes == self.tests_order(),
    {
        matches!(
            self,
            BinaryOperator::LessThan | BinaryOperator::LessEqualThan | BinaryOperator::GreaterThan
                | BinaryOperator::GreaterEqualThan
        )
    }
}

/// A binary expression, as far as the rules read it.
#[derive(Debug, Clone, Copy, PartialEq, Eq, Structural)]
pub struct BinaryExpression {
    pub span: Span,
    pub operator: BinaryOperator,
    /// The operator of the left operand, where that operand is itself a
    /// binary expression and does not stand in parentheses.
    pub left: Option<BinaryOperator>,
}

/// What a node of the tree is.
#[derive(Debug, Clone, Copy, PartialEq, Eq, Structural)]
pub enum AstKind {
    /// The root of the tree.
    Root,
    /// Any declaration.
    Declaration,
    /// Any statement.
    Statement,
    /// An expression in parentheses.
    ParenthesizedExpression,
    /// An expression with a binary operator.
    BinaryExpression(BinaryExpression),
    /// Any other node.
    Other,
}

impl AstKind {
    /// Whether a node of this kind is a declaration.
    pub fn is_declaration(self) -> (yes: bool)
        ensures
            yes == (self is Declaration),
    {
        matches!(self, AstKind::Declaration)
    }

    /// Whether a node of this kind is a statement.
    pub fn is_statement(self) -> (yes: bool)
        ensures
            yes == (self is Statement),
    {
        matches!(self, AstKind::Statement)
    }
}

/// A node of the tree: its kind, and the place of its parent in the table.
/// Only the root has no parent.
#[derive(Debug, Clone, Copy, PartialEq, Eq, Structural)]
pub struct AstNode {
    pub kind: AstKind,
    pub parent: Option<usize>,
}

/// Whether `nodes` is a tree: the root stands first, and every other node
/// stands behind its parent.
pub open spec fn is_tree(nodes: Seq<AstNode>) -> bool {
    &&& nodes.len() >= 1
    &&& nodes[0] == (AstNode { kind: AstKind::Root, parent: None })
    &&& forall|i: int|
        1 <= i < nodes.len() ==> (#[trigger] nodes[i]).parent is Some && nodes[i].parent->0 < i
}

/// The parent of the node at place `node`, if the table has such a node and
/// it is not the root.
pub open spec fn parent_of(nodes: Seq<AstNode>, node: int) -> Option<int> {
    if 0 <= node < nodes.len() && nodes[node].parent is Some {
        Some(nodes[node].parent->0 as int)
    } else {
        None
    }
}

/// The nodes of a program, the root first.
#[derive(Debug)]
pub struct AstNodes {
    nodes: Vec<AstNode>,
}

impl View for AstNodes {
    type V = Seq<AstNode>;

    closed spec fn view(&self) -> Seq<AstNode> {
        self.nodes@
    }
}

impl AstNodes {
    #[verifier::type_invariant]
    spec fn well_formed(self) -> bool {
        is_tree(self.nodes@)
    }

    /// The tree that `nodes` describe, if they describe one: the root first,
    /// and every other node behind its parent.
    pub fn new(nodes: Vec<AstNode>) -> (tree: Option<AstNodes>)
        ensures
            is_tree(nodes@) ==> tree is Some && tree->0@ == nodes@,
            !is_tree(nodes@) ==> tree is None,
    {
        if nodes.len() == 0 {
            return None;
        }
        let root = nodes[0];
        if !matches!(root.kind, AstKind::Root) || root.parent.is_some() {
            return None;
        }
        let mut i: usize = 1;
        while i < nodes.len()
            invariant
                1 <= i <= nodes@.len(),
                forall|j: int|
                    1 <= j < i ==> (#[trigger] nodes@[j]).parent is Some && nodes@[j].parent->0 < j,
            decreases nodes@.len() - i,
        {
            match nodes[i].parent {
                Some(parent) => {
                    if parent >= i {
                        return None;
                    }
                },
                None => {
                    return None;
                },
            }
            i += 1;
        }
        Some(AstNodes { nodes })
    }

    /// The number of nodes.
    pub fn len(&self) -> (len: usize)
        ensures
            len == self@.len(),
    {
        self.nodes.len()
    }

    /// The kind of the node at place `node`.
    pub fn kind(&self, node: usize) -> (kind: AstKind)
        requires
            node < self@.len(),
        ensures
            kind == self@[node as int].kind,
    {
        self.nodes[node].kind
    }

    /// The place of the parent of the node at place `node`: a node that
    /// stands before it. The root has none, nor has a place outside the table.
    pub fn parent_node(&self, node: usize) -> (parent: Option<usize>)
        ensures
            parent_of(self@, node as int) == match parent {
                Some(p) => Some(p as int),
                None => None,
            },
            parent matches Some(p) ==> p < node < self@.len(),
    {
        proof {
            use_type_invariant(self);
        }
        if node < self.nodes.len() {
            self.nodes[node].parent
        } else {
            None
        }
    }
}

} // verus!
