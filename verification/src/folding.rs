//! Constant folding: the truth value of a formula in which nothing is left
//! to resolve.
//!
//! A resolved formula is read from left to right, without precedence: a
//! negation applies to the operand that follows it, and each binary
//! connective combines what was computed so far with the operand after it.
use crate::formula::{Connective, Node};
use vstd::prelude::*;

verus! {

/// The value of a binary connective on two truth values.
pub open spec fn apply(connective: Connective, left: bool, right: bool) -> bool {
    match connective {
        Connective::And => left && right,
        Connective::Or => left || right,
        Connective::Implies => !left || right,
        Connective::Not => !right,
    }
}

/// The operand that begins at `index`: any number of negations and then a
/// truth value. Gives its value and the index after it.
pub open spec fn operand(formula: Seq<Node>, index: int) -> Option<(bool, int)>
    decreases formula.len() - index,
{
    if index < 0 || index >= formula.len() {
        None
    } else {
        match formula[index] {
            Node::TruthValue(value) => Some((value, index + 1)),
            Node::Operator(Connective::Not) => match operand(formula, index + 1) {
                Some((value, next)) => Some((!value, next)),
                None => None,
            },
            _ => None,
        }
    }
}

/// The value of the formula, given the value of what stands before `index`:
/// from `index` on, a binary connective and an operand alternate.
pub open spec fn fold(formula: Seq<Node>, value: bool, index: int) -> Option<bool>
    decreases formula.len() - index,
{
    if index < 0 || index >= formula.len() {
        Some(value)
    } else {
        match formula[index] {
            Node::Operator(connective) => match operand(formula, index + 1) {
                Some((right, next)) => if connective != Connective::Not && index < next <= formula.len() {
                    fold(formula, apply(connective, value, right), next)
                } else {
                    None
                },
                None => None,
            },
            _ => None,
        }
    }
}

/// The truth value of a formula made of truth values and connectives alone,
/// where these alternate as operands and binary connectives do. Any other
/// formula has no value.
pub open spec fn evaluate(formula: Seq<Node>) -> Option<bool> {
    match operand(formula, 0) {
        Some((value, next)) => fold(formula, value, next),
        None => None,
    }
}

/// A node simplified: a group that comes down to one truth value is that
/// truth value, any other group is the group of its simplified formula.
pub open spec fn simplify_node(node: Node) -> Node
    decreases node,
{
    match node {
        Node::Group(inner) => {
            let simplified = simplify(inner);
            if simplified.len() == 1 && simplified[0] is TruthValue {
                simplified[0]
            } else {
                Node::Group(simplified)
            }
        },
        _ => node,
    }
}

/// The nodes of a formula, each simplified.
pub open spec fn simplify_nodes(formula: Seq<Node>) -> Seq<Node>
    decreases formula, 0nat,
{
    Seq::new(
        formula.len(),
        |i: int|
            if 0 <= i < formula.len() {
                simplify_node(formula[i])
            } else {
                Node::TruthValue(false)
            },
    )
}

/// A formula simplified: its groups are simplified first, and if it then
/// has a truth value, it is that truth value alone.
pub open spec fn simplify(formula: Seq<Node>) -> Seq<Node>
    decreases formula, 1nat,
{
    let nodes = simplify_nodes(formula);
    match evaluate(nodes) {
        Some(value) => seq![Node::TruthValue(value)],
        None => nodes,
    }
}

/// An operand ends after the place where it begins, within the formula.
pub proof fn lemma_operand_advances(formula: Seq<Node>, index: int)
    ensures
        operand(formula, index) matches Some((_, next)) ==> index < next <= formula.len(),
    decreases formula.len() - index,
{
    if 0 <= index < formula.len() {
        lemma_operand_advances(formula, index + 1);
    }
}

} // verus!
