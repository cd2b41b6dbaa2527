//! The canonical text of a formula.
//!
//! Nodes are written in order and separated by one space, except that
//! nothing separates a negation from what follows it. Connectives are written
//! with their glyphs, truth values as `true` and `false`, and a group between
//! parentheses.
use crate::formula::{Connective, Node};
use vstd::prelude::*;

verus! {

/// The glyph of a connective.
pub open spec fn glyph(connective: Connective) -> char {
    match connective {
        Connective::Not => '¬',
        Connective::And => '∧',
        Connective::Or => '∨',
        Connective::Implies => '→',
    }
}

/// The text of a truth value.
pub open spec fn render_truth(value: bool) -> Seq<char> {
    if value {
        seq!['t', 'r', 'u', 'e']
    } else {
        seq!['f', 'a', 'l', 's', 'e']
    }
}

/// What stands between the node at `index` and the one before it: a space,
/// or nothing after a negation and before the first node.
pub open spec fn gap(formula: Seq<Node>, index: int) -> Seq<char> {
    if 0 < index < formula.len() && formula[index - 1] != Node::Operator(Connective::Not) {
        seq![' ']
    } else {
        Seq::empty()
    }
}

/// The text of a node.
pub open spec fn render_node(node: Node) -> Seq<char>
    decreases node, 0nat,
{
    match node {
        Node::Proposition(id) => seq![id],
        Node::TruthValue(value) => render_truth(value),
        Node::Operator(connective) => seq![glyph(connective)],
        Node::Group(inner) => seq!['('] + render_from(inner, 0) + seq![')'],
    }
}

/// The text of the nodes of a formula from `index` on.
pub open spec fn render_from(formula: Seq<Node>, index: int) -> Seq<char>
    decreases formula, formula.len() - index,
{
    if index < 0 || index >= formula.len() {
        Seq::empty()
    } else {
        render_node(formula[index]) + gap(formula, index + 1) + render_from(formula, index + 1)
    }
}

/// The canonical text of a formula.
pub open spec fn render(formula: Seq<Node>) -> Seq<char> {
    render_from(formula, 0)
}

/// The text of a stack of premises: each premise on a line of its own.
pub open spec fn render_lines(premises: Seq<Seq<Node>>) -> Seq<char>
    decreases premises.len(),
{
    if premises.len() == 0 {
        Seq::empty()
    } else {
        render_lines(premises.drop_last()) + render(premises.last()) + seq!['\n']
    }
}

/// `String::push` of the standard library: the string afterwards holds the
/// characters it held before, followed by the one pushed.
pub assume_specification[ String::push ](text: &mut String, character: char)
    ensures
        final(text)@ == old(text)@.push(character),
;

/// Appends the text of a truth value.
pub fn push_truth(text: &mut String, value: bool)
    ensures
        final(text)@ == old(text)@ + render_truth(value),
{
    if value {
        text.push('t');
        text.push('r');
        text.push('u');
        text.push('e');
    } else {
        text.push('f');
        text.push('a');
        text.push('l');
        text.push('s');
        text.push('e');
    }
    assert(text@ =~= old(text)@ + render_truth(value));
}

/// Writing one node more: what was written, the gap and the rest make up
/// the same text before and after.
pub proof fn lemma_render_step(written: Seq<char>, formula: Seq<Node>, index: int)
    requires
        0 <= index < formula.len(),
    ensures
        written + gap(formula, index) + render_from(formula, index) == (written + gap(
            formula,
            index,
        ) + render_node(formula[index])) + gap(formula, index + 1) + render_from(
            formula,
            index + 1,
        ),
{
    assert(written + gap(formula, index) + render_from(formula, index) =~= (written + gap(
        formula,
        index,
    ) + render_node(formula[index])) + gap(formula, index + 1) + render_from(
        formula,
        index + 1,
    ));
}

} // verus!
