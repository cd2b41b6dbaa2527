//! The mathematical model of a formula.
//!
//! A formula is an ordered sequence of nodes that mirrors the order of the
//! symbols it was written with: operands and operators stand side by side,
//! and only parentheses nest. Every executable representation in this crate
//! has a view into this model, and every contract is stated over it.
use vstd::prelude::*;

verus! {

/// The four connectives of the language.
#[derive(Clone, Copy, Debug, PartialEq, Eq, Structural)]
pub enum Connective {
    Not,
    And,
    Or,
    Implies,
}

/// One node of a formula.
pub enum Node {
    /// A propositional variable, named by one character.
    Proposition(char),
    /// A resolved literal.
    TruthValue(bool),
    /// A connective, standing where it was written.
    Operator(Connective),
    /// A parenthesised formula.
    Group(Seq<Node>),
}

/// What is known of each proposition: absent from the map, seeded but
/// unknown (`None`), or known (`Some`).
pub type Facts = Map<char, Option<bool>>;

/// The propositions that occur in a node, at any depth.
pub open spec fn node_propositions(node: Node) -> Set<char>
    decreases node,
{
    match node {
        Node::Proposition(id) => set![id],
        Node::Group(inner) => propositions(inner),
        _ => Set::empty(),
    }
}

/// The propositions that occur in a formula, at any depth.
pub open spec fn propositions(formula: Seq<Node>) -> Set<char>
    decreases formula,
{
    if formula.len() == 0 {
        Set::empty()
    } else {
        propositions(formula.drop_last()).union(node_propositions(formula.last()))
    }
}

/// Whether the value of a proposition is known.
pub open spec fn known(facts: Facts, id: char) -> bool {
    facts.contains_key(id) && facts[id] is Some
}

/// Every proposition of the formula has an entry in `facts`.
pub open spec fn seeded(formula: Seq<Node>, facts: Facts) -> bool {
    propositions(formula).subset_of(facts.dom())
}

/// A node after substitution: a proposition with a known value becomes that
/// value, a group is substituted inside, anything else stays.
pub open spec fn substitute_node(node: Node, facts: Facts) -> Node
    decreases node,
{
    match node {
        Node::Proposition(id) => if known(facts, id) {
            Node::TruthValue(facts[id]->0)
        } else {
            node
        },
        Node::Group(inner) => Node::Group(substitute(inner, facts)),
        _ => node,
    }
}

/// A formula after substitution: node for node, in the same order.
pub open spec fn substitute(formula: Seq<Node>, facts: Facts) -> Seq<Node>
    decreases formula,
{
    Seq::new(
        formula.len(),
        |i: int|
            if 0 <= i < formula.len() {
                substitute_node(formula[i], facts)
            } else {
                Node::TruthValue(false)
            },
    )
}

/// The fact that a formula asserts outright: `p` alone says that `p` is
/// true, `¬p` alone says that `p` is false, and no other shape says anything.
pub open spec fn unit_fact(formula: Seq<Node>) -> Option<(char, bool)> {
    if formula.len() == 1 && formula[0] is Proposition {
        Some((formula[0]->Proposition_0, true))
    } else if formula.len() == 2 && formula[0] == Node::Operator(Connective::Not)
        && formula[1] is Proposition {
        Some((formula[1]->Proposition_0, false))
    } else {
        None
    }
}

/// A formula that holds no proposition with a known value: substitution has
/// nothing left to do in it.
pub open spec fn saturated(formula: Seq<Node>, facts: Facts) -> bool {
    forall|id: char| #[trigger] propositions(formula).contains(id) ==> !known(facts, id)
}

/// Each node of a formula contributes its propositions to the formula's.
pub proof fn lemma_propositions_of_node(formula: Seq<Node>, i: int)
    requires
        0 <= i < formula.len(),
    ensures
        node_propositions(formula[i]).subset_of(propositions(formula)),
    decreases formula.len(),
{
    if i < formula.len() - 1 {
        lemma_propositions_of_node(formula.drop_last(), i);
    }
}

/// The propositions of a formula extended by one node.
pub proof fn lemma_propositions_push(formula: Seq<Node>, node: Node)
    ensures
        propositions(formula.push(node)) == propositions(formula).union(node_propositions(node)),
{
    assert(formula.push(node).drop_last() == formula);
}

/// Substitution leaves exactly the propositions whose value is not known.
pub proof fn lemma_substitute_propositions(formula: Seq<Node>, facts: Facts)
    ensures
        propositions(substitute(formula, facts)) == propositions(formula).filter(
            |id: char| !known(facts, id),
        ),
    decreases formula,
{
    let unknown = |id: char| !known(facts, id);
    if formula.len() == 0 {
        assert(propositions(formula).filter(unknown) =~= Set::<char>::empty());
    } else {
        let front = formula.drop_last();
        let last = formula.last();
        lemma_substitute_propositions(front, facts);
        lemma_substitute_node_propositions(last, facts);
        assert(substitute(formula, facts).drop_last() =~= substitute(front, facts));
        assert(substitute(formula, facts).last() == substitute_node(last, facts));
        assert(propositions(formula).filter(unknown) =~= propositions(front).filter(unknown).union(
            node_propositions(last).filter(unknown),
        ));
    }
}

/// Substitution leaves exactly the propositions whose value is not known.
pub proof fn lemma_substitute_node_propositions(node: Node, facts: Facts)
    ensures
        node_propositions(substitute_node(node, facts)) == node_propositions(node).filter(
            |id: char| !known(facts, id),
        ),
    decreases node,
{
    let unknown = |id: char| !known(facts, id);
    match node {
        Node::Proposition(id) => {
            assert(node_propositions(substitute_node(node, facts)) =~= node_propositions(
                node,
            ).filter(unknown));
        },
        Node::Group(inner) => {
            lemma_substitute_propositions(inner, facts);
        },
        _ => {
            assert(node_propositions(node).filter(unknown) =~= Set::<char>::empty());
        },
    }
}

/// A substituted formula is saturated, and seeded wherever the formula was.
pub proof fn lemma_substitute_saturates(formula: Seq<Node>, facts: Facts)
    ensures
        saturated(substitute(formula, facts), facts),
        propositions(substitute(formula, facts)).subset_of(propositions(formula)),
{
    lemma_substitute_propositions(formula, facts);
}

/// Substitution changes nothing in a saturated formula.
pub proof fn lemma_substitute_saturated(formula: Seq<Node>, facts: Facts)
    requires
        saturated(formula, facts),
    ensures
        substitute(formula, facts) == formula,
    decreases formula,
{
    assert forall|i: int| 0 <= i < formula.len() implies substitute_node(formula[i], facts)
        == formula[i] by {
        lemma_propositions_of_node(formula, i);
        match formula[i] {
            Node::Proposition(id) => {
                assert(node_propositions(formula[i]).contains(id));
                assert(propositions(formula).contains(id));
            },
            Node::Group(inner) => {
                assert forall|id: char| #[trigger]
                    propositions(inner).contains(id) implies !known(facts, id) by {
                    assert(propositions(formula).contains(id));
                }
                lemma_substitute_saturated(inner, facts);
            },
            _ => {},
        }
    }
    assert(substitute(formula, facts) =~= formula);
}

/// What a formula asserts outright after substitution: what it asserted
/// before, unless that proposition's value is now known.
pub proof fn lemma_substitute_unit_fact(formula: Seq<Node>, facts: Facts)
    ensures
        unit_fact(substitute(formula, facts)) == match unit_fact(formula) {
            Some((id, value)) => if known(facts, id) {
                None
            } else {
                Some((id, value))
            },
            None => None,
        },
{
}

} // verus!
