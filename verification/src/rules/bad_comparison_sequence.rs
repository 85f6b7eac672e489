//! Comparisons in a row: `a == b == c` compares `c` with the outcome of
//! `a == b`, not with `b`.

use vstd::prelude::*;
use crate::ast::{parent_of, AstKind, AstNode, AstNodes, BinaryExpression, Span};

verus! {

/// What the rule reports: the place of the offending comparison.
#[derive(Debug, Clone, Copy, PartialEq, Eq, Structural)]
pub struct BadComparisonSequenceDiagnostic(pub Span);

/// Reports a comparison whose left operand is a comparison of the same
/// family: equality after equality, or order after order.
#[derive(Debug, Default, Clone)]
pub struct BadComparisonSequence;

/// Whether `expr` compares the outcome of a comparison of its own family.
pub open spec fn bad_comparison(expr: BinaryExpression) -> bool {
    expr.left matches Some(left) && ((expr.operator.tests_equality() && left.tests_equality()) || (
    expr.operator.tests_order() && left.tests_order()))
}

/// Whether a node of this kind is a bad comparison.
pub open spec fn is_bad(kind: AstKind) -> bool {
    kind matches AstKind::BinaryExpression(expr) && bad_comparison(expr)
}

/// Whether the search through the parents ends at a node of this kind.
pub open spec fn is_boundary(kind: AstKind) -> bool {
    kind is Root || kind is ParenthesizedExpression || kind is Declaration || kind is Statement
}

/// Whether, on the way up from the node at place `node`, a bad comparison
/// is met before a boundary.
pub open spec fn bad_comparison_in_parents(nodes: Seq<AstNode>, node: int) -> bool
    decreases node,
{
    match parent_of(nodes, node) {
        Some(parent) => {
            if 0 <= parent < node {
                let kind = nodes[parent].kind;
                if is_boundary(kind) {
                    false
                } else if is_bad(kind) {
                    true
                } else {
                    bad_comparison_in_parents(nodes, parent)
                }
            } else {
                false
            }
        },
        None => false,
    }
}

/// What the rule reports for the node at place `node`: a bad comparison,
/// unless a bad comparison above it, with no boundary in between, is
/// reported in its stead.
pub open spec fn reported(nodes: Seq<AstNode>, node: int) -> Option<BadComparisonSequenceDiagnostic> {
    if 0 <= node < nodes.len() && is_bad(nodes[node].kind) && !bad_comparison_in_parents(nodes, node) {
        Some(BadComparisonSequenceDiagnostic(nodes[node].kind->BinaryExpression_0.span))
    } else {
        None
    }
}

/// Whether `expr` compares the outcome of a comparison of its own family.
pub fn is_bad_comparison(expr: &BinaryExpression) -> (bad: bool)
    ensures
        bad == bad_comparison(*expr),
{
    if let Some(left) = expr.left {
        if expr.operator.is_equality() && left.is_equality() {
            return true;
        }
        if expr.operator.is_compare() && left.is_compare() {
            return true;
        }
    }
    false
}

/// Whether the way up from the node at place `node` reaches a boundary
/// without meeting a bad comparison.
pub fn has_no_bad_comparison_in_parents(node: usize, nodes: &AstNodes) -> (none: bool)
    ensures
        none == !bad_comparison_in_parents(nodes@, node as int),
{
    let mut current = node;
    loop
        invariant
            bad_comparison_in_parents(nodes@, current as int) == bad_comparison_in_parents(
                nodes@,
                node as int,
            ),
        decreases current,
    {
        match nodes.parent_node(current) {
            None => {
                return true;
            },
            Some(parent) => {
                let kind = nodes.kind(parent);
                // `a === b === c === d` is reported once; `(a === b === c) === d === e`
                // twice: parentheses are a boundary.
                if matches!(kind, AstKind::Root | AstKind::ParenthesizedExpression) || kind.is_declaration()
                    || kind.is_statement() {
                    return true;
                }
                if let AstKind::BinaryExpression(expr) = kind {
                    if is_bad_comparison(&expr) {
                        return false;
                    }
                }
                current = parent;
            },
        }
    }
}

impl BadComparisonSequence {
    /// Looks at the node at place `node` and says what is to be reported
    /// for it, if anything.
    pub fn run(&self, node: usize, nodes: &AstNodes) -> (diagnostic: Option<BadComparisonSequenceDiagnostic>)
        ensures
            diagnostic == reported(nodes@, node as int),
    {
        if node < nodes.len() {
            if let AstKind::BinaryExpression(expr) = nodes.kind(node) {
                if is_bad_comparison(&expr) && has_no_bad_comparison_in_parents(node, nodes) {
                    return Some(BadComparisonSequenceDiagnostic(expr.span));
                }
            }
        }
        None
    }
}

} // verus!
