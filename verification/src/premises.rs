//! Formulas in the form in which the deduction works on them: negation is
//! a node of its own kind, apart from the three binary operators.
use crate::deductions::ValueMap;
use crate::expressions::{nodes_view, Expression, ExpressionNode};
use crate::formula::{
    lemma_propositions_of_node, lemma_substitute_saturates, seeded, substitute, substitute_node, unit_fact, Connective, Node,
};
use crate::syntax::{parse, SyntaxError};
use crate::folding::{
    apply, evaluate, fold, lemma_operand_advances, operand, simplify, simplify_node,
    simplify_nodes,
};
use crate::rendering::{
    gap, glyph, lemma_render_step, push_truth, render, render_from, render_node,
};
use vstd::prelude::*;

verus! {

/// One of the three binary operators of the language.
#[derive(Debug, Clone, Copy, PartialEq, Eq, Structural)]
pub enum Operator {
    And,
    Or,
    Implies,
}

impl View for Operator {
    type V = Connective;

    open spec fn view(&self) -> Connective {
        match self {
            Operator::And => Connective::And,
            Operator::Or => Connective::Or,
            Operator::Implies => Connective::Implies,
        }
    }
}

impl Operator {
    /// The glyph of the operator.
    pub fn glyph(&self) -> (character: char)
        ensures
            character == glyph(self@),
    {
        match self {
            Operator::And => '∧',
            Operator::Or => '∨',
            Operator::Implies => '→',
        }
    }

    /// The text of the operator: its glyph.
    pub fn to_string(&self) -> (text: String)
        ensures
            text@ == seq![glyph(self@)],
    {
        let mut text = String::new();
        text.push(self.glyph());
        assert(text@ =~= seq![glyph(self@)]);
        text
    }

    /// The value of the operator on two truth values.
    pub fn apply(&self, left: bool, right: bool) -> (value: bool)
        ensures
            value == apply(self@, left, right),
    {
        match self {
            Operator::And => left && right,
            Operator::Or => left || right,
            Operator::Implies => !left || right,
        }
    }
}

/// An operand read under an odd number of negations has the opposite value.
pub open spec fn negate_if(negated: bool, read: Option<(bool, int)>) -> Option<(bool, int)> {
    match read {
        Some((value, next)) => Some((value != negated, next)),
        None => None,
    }
}

/// A premise: its nodes in the order in which they were written.
#[derive(Debug, PartialEq, Eq)]
pub struct Premise {
    nodes: Vec<PremiseNode>,
}

/// A node of a premise.
#[derive(Debug, PartialEq, Eq)]
pub enum PremiseNode {
    Proposition(char),
    TruthValue(bool),
    Operator(Operator),
    Negation,
    Subpremise(Premise),
}

impl PremiseNode {
    /// The node as a mathematical value. A negation is the connective `Not`.
    pub open spec fn view(self) -> Node
        decreases self,
    {
        match self {
            PremiseNode::Proposition(id) => Node::Proposition(id),
            PremiseNode::TruthValue(value) => Node::TruthValue(value),
            PremiseNode::Operator(operator) => Node::Operator(operator@),
            PremiseNode::Negation => Node::Operator(Connective::Not),
            PremiseNode::Subpremise(inner) => Node::Group(inner.view()),
        }
    }

    /// The proposition that the node is, if it is one.
    pub fn is_proposition(&self) -> (id: Option<char>)
        ensures
            id == match self.view() {
                Node::Proposition(id) => Some(id),
                _ => None,
            },
    {
        match self {
            PremiseNode::Proposition(id) => Some(*id),
            _ => None,
        }
    }

    /// The binary operator that the node is, if it is one.
    pub fn is_operator(&self) -> (operator: Option<Operator>)
        ensures
            match operator {
                Some(operator) => self.view() == Node::Operator(operator@),
                None => !(self.view() is Operator) || self.view() == Node::Operator(
                    Connective::Not,
                ),
            },
    {
        match self {
            PremiseNode::Operator(operator) => Some(*operator),
            _ => None,
        }
    }

    /// Whether the node is a negation.
    pub fn is_negation(&self) -> (negation: bool)
        ensures
            negation == (self.view() == Node::Operator(Connective::Not)),
    {
        match self {
            PremiseNode::Negation => true,
            _ => false,
        }
    }
}

impl PremiseNode {
    /// Appends the text of the node.
    fn write_to(&self, text: &mut String)
        ensures
            final(text)@ == old(text)@ + render_node(self.view()),
        decreases self,
    {
        match self {
            PremiseNode::Proposition(id) => {
                text.push(*id);
                assert(text@ =~= old(text)@ + render_node(self.view()));
            },
            PremiseNode::TruthValue(value) => {
                push_truth(text, *value);
            },
            PremiseNode::Operator(operator) => {
                text.push(operator.glyph());
                assert(text@ =~= old(text)@ + render_node(self.view()));
            },
            PremiseNode::Negation => {
                text.push('¬');
                assert(text@ =~= old(text)@ + render_node(self.view()));
            },
            PremiseNode::Subpremise(inner) => {
                text.push('(');
                inner.write_to(text);
                text.push(')');
                assert(text@ =~= old(text)@ + render_node(self.view()));
            },
        }
    }

    /// The text of the node.
    pub fn to_string(&self) -> (text: String)
        ensures
            text@ == render_node(self.view()),
    {
        let mut text = String::new();
        self.write_to(&mut text);
        assert(text@ =~= render_node(self.view()));
        text
    }
}

/// The nodes of a premise as mathematical values.
pub open spec fn premise_nodes_view(nodes: Seq<PremiseNode>) -> Seq<Node>
    decreases nodes,
{
    Seq::new(
        nodes.len(),
        |i: int|
            if 0 <= i < nodes.len() {
                nodes[i].view()
            } else {
                Node::TruthValue(false)
            },
    )
}

impl Clone for Premise {
    /// A premise with the same nodes, sharing nothing with this one.
    fn clone(&self) -> (copy: Self)
        ensures
            copy@ == self@,
        decreases self,
    {
        let mut nodes: Vec<PremiseNode> = Vec::new();
        let mut i: usize = 0;
        while i < self.nodes.len()
            invariant
                i <= self.nodes.len(),
                nodes.len() == i,
                forall|j: int| 0 <= j < i ==> (#[trigger] nodes@[j]).view() == self.nodes@[j].view(),
            decreases self.nodes.len() - i,
        {
            let node = match &self.nodes[i] {
                PremiseNode::Proposition(id) => PremiseNode::Proposition(*id),
                PremiseNode::TruthValue(value) => PremiseNode::TruthValue(*value),
                PremiseNode::Operator(operator) => PremiseNode::Operator(*operator),
                PremiseNode::Negation => PremiseNode::Negation,
                PremiseNode::Subpremise(inner) => PremiseNode::Subpremise(inner.clone()),
            };
            nodes.push(node);
            i += 1;
        }
        assert(premise_nodes_view(nodes@) =~= self@);
        Premise { nodes }
    }
}

impl Premise {
    /// The premise as a mathematical formula.
    pub closed spec fn view(self) -> Seq<Node>
        decreases self,
    {
        premise_nodes_view(self.nodes@)
    }

    /// A premise made of the given nodes.
    pub fn new(nodes: Vec<PremiseNode>) -> (premise: Self)
        ensures
            premise@ == premise_nodes_view(nodes@),
    {
        Premise { nodes }
    }

    /// The premise that says what the expression says.
    pub fn from_expression(expression: &Expression) -> (premise: Self)
        ensures
            premise@ == expression@,
        decreases expression@,
    {
        let source = expression.get_nodes();
        let mut nodes: Vec<PremiseNode> = Vec::new();
        let mut i: usize = 0;
        while i < source.len()
            invariant
                i <= source.len(),
                nodes_view(source@) == expression@,
                nodes.len() == i,
                forall|j: int| 0 <= j < i ==> (#[trigger] nodes@[j]).view() == source@[j].view(),
            decreases source.len() - i,
        {
            let node = match &source[i] {
                ExpressionNode::Proposition(id) => PremiseNode::Proposition(*id),
                ExpressionNode::TruthValue(value) => PremiseNode::TruthValue(*value),
                ExpressionNode::Operator(operator) => match operator {
                    crate::expressions::Operator::Not => PremiseNode::Negation,
                    crate::expressions::Operator::And => PremiseNode::Operator(Operator::And),
                    crate::expressions::Operator::Or => PremiseNode::Operator(Operator::Or),
                    crate::expressions::Operator::Implies => PremiseNode::Operator(
                        Operator::Implies,
                    ),
                },
                ExpressionNode::Subexpression(inner) => {
                    proof {
                        let group = expression@[i as int];
                        assert(group == Node::Group(inner@));
                        assert(decreases_to!(expression@ => group));
                        assert(decreases_to!(group => group->Group_0));
                    }
                    PremiseNode::Subpremise(Premise::from_expression(inner))
                },
            };
            nodes.push(node);
            i += 1;
        }
        assert(premise_nodes_view(nodes@) =~= expression@);
        Premise { nodes }
    }

    /// Reads a premise from its text.
    pub fn parse_str(premise_string: &str) -> (result: Result<Self, SyntaxError>)
        ensures
            match result {
                Ok(premise) => parse(premise_string@) == Ok::<Seq<Node>, SyntaxError>(premise@),
                Err(error) => parse(premise_string@) == Err::<Seq<Node>, SyntaxError>(error),
            },
    {
        match Expression::parse_str(premise_string) {
            Ok(expression) => Ok(Premise::from_expression(&expression)),
            Err(error) => Err(error),
        }
    }

    /// Appends the canonical text of the premise.
    pub fn write_to(&self, text: &mut String)
        ensures
            final(text)@ == old(text)@ + render(self@),
        decreases self,
    {
        let ghost formula = self@;
        let mut i: usize = 0;
        assert(text@ =~= old(text)@ + gap(formula, 0));
        while i < self.nodes.len()
            invariant
                i <= self.nodes.len(),
                formula == self@,
                old(text)@ + render(formula) == text@ + gap(formula, i as int) + render_from(
                    formula,
                    i as int,
                ),
            decreases self.nodes.len() - i,
        {
            let ghost written = text@;
            proof {
                lemma_render_step(written, formula, i as int);
            }
            if i > 0 && !self.nodes[i - 1].is_negation() {
                text.push(' ');
            }
            assert(text@ =~= written + gap(formula, i as int));
            self.nodes[i].write_to(text);
            i += 1;
        }
        assert(text@ + gap(formula, i as int) + render_from(formula, i as int) =~= text@);
    }

    /// The canonical text of the premise.
    pub fn to_string(&self) -> (text: String)
        ensures
            text@ == render(self@),
    {
        let mut text = String::new();
        self.write_to(&mut text);
        assert(text@ =~= render(self@));
        text
    }

    /// The nodes of the premise.
    pub fn get_nodes(&self) -> (nodes: &Vec<PremiseNode>)
        ensures
            premise_nodes_view(nodes@) == self@,
    {
        &self.nodes
    }

    /// The fact that the premise asserts outright, if it has come down to a
    /// proposition or to the negation of one.
    pub fn get_value_if_root_proposition(&self) -> (fact: Option<(char, bool)>)
        ensures
            fact == unit_fact(self@),
    {
        if self.nodes.len() == 1 {
            match self.nodes[0].is_proposition() {
                Some(id) => Some((id, true)),
                None => None,
            }
        } else if self.nodes.len() == 2 && self.nodes[0].is_negation() {
            match self.nodes[1].is_proposition() {
                Some(id) => Some((id, false)),
                None => None,
            }
        } else {
            None
        }
    }

    /// Reads the operand that begins at `index`: negations, then a truth
    /// value. Gives its value and the index after it.
    fn read_operand(&self, index: usize) -> (read: Option<(bool, usize)>)
        ensures
            match read {
                Some((value, next)) => operand(self@, index as int) == Some((value, next as int)),
                None => operand(self@, index as int) is None,
            },
    {
        let mut i: usize = index;
        let mut negated = false;
        while i < self.nodes.len()
            invariant
                index <= i,
                operand(self@, index as int) == negate_if(negated, operand(self@, i as int)),
            decreases self.nodes.len() - i,
        {
            match &self.nodes[i] {
                PremiseNode::TruthValue(value) => {
                    return Some((*value != negated, i + 1));
                },
                PremiseNode::Negation => {
                    negated = !negated;
                    i += 1;
                },
                _ => {
                    return None;
                },
            }
        }
        None
    }

    /// The truth value of the premise, where it is made of truth values and
    /// operators alone and these alternate as they should; read from left to
    /// right, without precedence.
    pub fn evaluate(&self) -> (value: Option<bool>)
        ensures
            value == evaluate(self@),
    {
        let (first, after) = match self.read_operand(0) {
            Some(read) => read,
            None => {
                return None;
            },
        };
        let mut value = first;
        let mut i: usize = after;
        proof {
            lemma_operand_advances(self@, 0);
        }
        while i < self.nodes.len()
            invariant
                i <= self.nodes.len(),
                evaluate(self@) == fold(self@, value, i as int),
            decreases self.nodes.len() - i,
        {
            let operator = match self.nodes[i].is_operator() {
                Some(operator) => operator,
                None => {
                    return None;
                },
            };
            let (right, next) = match self.read_operand(i + 1) {
                Some(read) => read,
                None => {
                    return None;
                },
            };
            proof {
                lemma_operand_advances(self@, i + 1);
            }
            value = operator.apply(value, right);
            i = next;
        }
        Some(value)
    }

    /// The truth value that the premise has come down to, if it is one truth
    /// value and nothing else.
    fn single_truth_value(&self) -> (value: Option<bool>)
        ensures
            match value {
                Some(value) => self@.len() == 1 && self@[0] == Node::TruthValue(value),
                None => !(self@.len() == 1 && self@[0] is TruthValue),
            },
    {
        if self.nodes.len() == 1 {
            match &self.nodes[0] {
                PremiseNode::TruthValue(value) => Some(*value),
                _ => None,
            }
        } else {
            None
        }
    }

    /// Folds constants: every subpremise is simplified first, one that comes
    /// down to a truth value becomes that truth value, and a premise that
    /// then has a truth value becomes that truth value alone.
    pub fn simplify(&mut self)
        ensures
            final(self)@ == simplify(old(self)@),
        decreases *old(self),
    {
        let n = self.nodes.len();
        let mut i: usize = 0;
        while i < n
            invariant
                i <= n,
                n == self.nodes.len(),
                self.nodes.len() == old(self).nodes.len(),
                forall|j: int|
                    0 <= j < i ==> (#[trigger] self.nodes@[j]).view() == simplify_node(
                        old(self).nodes@[j].view(),
                    ),
                forall|j: int| i <= j < n ==> self.nodes@[j] == old(self).nodes@[j],
            decreases n - i,
        {
            let mut collapsed: Option<bool> = None;
            match &mut self.nodes[i] {
                PremiseNode::Subpremise(inner) => {
                    inner.simplify();
                    collapsed = inner.single_truth_value();
                },
                _ => {},
            }
            if let Some(value) = collapsed {
                self.nodes[i] = PremiseNode::TruthValue(value);
            }
            i += 1;
        }
        assert(self@ =~= simplify_nodes(old(self)@));
        if let Some(value) = self.evaluate() {
            let mut nodes: Vec<PremiseNode> = Vec::new();
            nodes.push(PremiseNode::TruthValue(value));
            self.nodes = nodes;
            assert(self@ =~= seq![Node::TruthValue(value)]);
        }
    }

    /// Replaces every proposition whose value is known by that value.
    pub fn substitute(&mut self, proposition_values: &ValueMap)
        requires
            seeded(old(self)@, proposition_values@),
        ensures
            final(self)@ == substitute(old(self)@, proposition_values@),
            seeded(final(self)@, proposition_values@),
        decreases *old(self),
    {
        let n = self.nodes.len();
        let mut i: usize = 0;
        while i < n
            invariant
                i <= n,
                n == self.nodes.len(),
                self.nodes.len() == old(self).nodes.len(),
                forall|j: int|
                    0 <= j < i ==> (#[trigger] self.nodes@[j]).view() == substitute_node(
                        old(self).nodes@[j].view(),
                        proposition_values@,
                    ),
                forall|j: int| i <= j < n ==> self.nodes@[j] == old(self).nodes@[j],
                seeded(old(self)@, proposition_values@),
            decreases n - i,
        {
            proof {
                lemma_propositions_of_node(old(self)@, i as int);
            }
            match &mut self.nodes[i] {
                PremiseNode::Proposition(id) => {
                    if let Some(value) = proposition_values.get_value(*id) {
                        self.nodes[i] = PremiseNode::TruthValue(value);
                    }
                },
                PremiseNode::Subpremise(inner) => {
                    inner.substitute(proposition_values);
                },
                _ => {},
            }
            i += 1;
        }
        assert(self@ =~= substitute(old(self)@, proposition_values@));
        proof {
            lemma_substitute_saturates(old(self)@, proposition_values@);
        }
    }
}

} // verus!
