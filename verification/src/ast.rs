//! The abstract syntax tree consumed by semantic analysis.
//!
//! Nodes are produced by a parsing collaborator outside this crate and
//! are read-only afterwards; every child reference denotes sole
//! ownership, so the tree is finite and acyclic by construction.

use vstd::prelude::*;

verus! {

/// The verb of a mutation expression: plain assignment or compound
/// addition-assignment.
#[derive(PartialEq, Eq, Structural, Debug)]
pub enum MutationVerb {
    Equals,
    PlusEquals,
}

impl Clone for MutationVerb {
    fn clone(&self) -> (r: MutationVerb)
        ensures
            r == *self,
    {
        match self {
            MutationVerb::Equals => MutationVerb::Equals,
            MutationVerb::PlusEquals => MutationVerb::PlusEquals,
        }
    }
}

/// The verb of a comparison expression.
#[derive(PartialEq, Eq, Structural, Debug)]
pub enum ComparisonVerb {
    Equals,
}

impl Clone for ComparisonVerb {
    fn clone(&self) -> (r: ComparisonVerb)
        ensures
            r == *self,
    {
        match self {
            ComparisonVerb::Equals => ComparisonVerb::Equals,
        }
    }
}

/// A node of the abstract syntax tree.
///
/// Only `Block` opens a lexical scope, and only the target of a
/// `MutationExpression` contributes a symbol-table binding; all other
/// variants are carried through semantic analysis unchanged.
#[derive(PartialEq, Debug)]
pub enum AstNode {
    Function {
        name: Box<AstNode>,
        body: Box<AstNode>,
    },
    Block(Vec<AstNode>),
    MutationExpression {
        target: Box<AstNode>,
        verb: MutationVerb,
        expr: Box<AstNode>,
    },
    Declaration {
        data_type: Box<AstNode>,
        name: Box<AstNode>,
        expr: Box<AstNode>,
    },
    Name(String),
    Integer(i32),
}

/// Assembles a declaration node from its already-built parts; the
/// parse-tree translation hands them over in source order.
pub fn parse_declaration(data_type: AstNode, name: AstNode, expr: AstNode) -> (r: AstNode)
    ensures
        (r matches AstNode::Declaration { data_type: d, name: n, expr: e } && *d == data_type
            && *n == name && *e == expr),
{
    AstNode::Declaration {
        data_type: Box::new(data_type),
        name: Box::new(name),
        expr: Box::new(expr),
    }
}

} // verus!
