//! Formulas as syntax trees, with negation as an operator among the others.
use crate::deductions::ValueMap;
use crate::formula::{
    lemma_propositions_of_node, lemma_substitute_saturates, seeded, substitute, substitute_node, unit_fact, Connective, Node,
};
use crate::syntax::{
    characters, connective_of, extend, find_closing, lemma_closing_after, lemma_extend_done,
    lemma_extend_start,
    lemma_extend_prepend, parse, parse_between, SyntaxError,
};
use crate::rendering::{
    gap, glyph, lemma_render_step, push_truth, render, render_from, render_node,
};
use vstd::prelude::*;

verus! {

/// One of the four operators of the language.
#[derive(Debug, Clone, Copy, PartialEq, Eq, Structural)]
pub enum Operator {
    Not,
    And,
    Or,
    Implies,
}

impl View for Operator {
    type V = Connective;

    open spec fn view(&self) -> Connective {
        match self {
            Operator::Not => Connective::Not,
            Operator::And => Connective::And,
            Operator::Or => Connective::Or,
            Operator::Implies => Connective::Implies,
        }
    }
}

impl Operator {
    /// The glyph of the operator.
    pub fn glyph(&self) -> (character: char)
        ensures
            character == glyph(self@),
    {
        match self {
            Operator::Not => '¬',
            Operator::And => '∧',
            Operator::Or => '∨',
            Operator::Implies => '→',
        }
    }

    /// The text of the operator: its glyph.
    pub fn to_string(&self) -> (text: String)
        ensures
            text@ == seq![glyph(self@)],
    {
        let mut text = String::new();
        text.push(self.glyph());
        assert(text@ =~= seq![glyph(self@)]);
        text
    }
}

/// A formula: its nodes in the order in which they were written.
#[derive(Debug, PartialEq, Eq)]
pub struct Expression {
    nodes: Vec<ExpressionNode>,
}

/// A node of an expression.
#[derive(Debug, PartialEq, Eq)]
pub enum ExpressionNode {
    Proposition(char),
    TruthValue(bool),
    Operator(Operator),
    Subexpression(Expression),
}

impl ExpressionNode {
    /// The node as a mathematical value.
    pub open spec fn view(self) -> Node
        decreases self,
    {
        match self {
            ExpressionNode::Proposition(id) => Node::Proposition(id),
            ExpressionNode::TruthValue(value) => Node::TruthValue(value),
            ExpressionNode::Operator(operator) => Node::Operator(operator@),
            ExpressionNode::Subexpression(inner) => Node::Group(inner.view()),
        }
    }
}

impl ExpressionNode {
    /// Whether the node is the negation operator.
    pub fn is_negation(&self) -> (negation: bool)
        ensures
            negation == (self.view() == Node::Operator(Connective::Not)),
    {
        match self {
            ExpressionNode::Operator(Operator::Not) => true,
            _ => false,
        }
    }

    /// Appends the text of the node.
    fn write_to(&self, text: &mut String)
        ensures
            final(text)@ == old(text)@ + render_node(self.view()),
        decreases self,
    {
        match self {
            ExpressionNode::Proposition(id) => {
                text.push(*id);
                assert(text@ =~= old(text)@ + render_node(self.view()));
            },
            ExpressionNode::TruthValue(value) => {
                push_truth(text, *value);
            },
            ExpressionNode::Operator(operator) => {
                text.push(operator.glyph());
                assert(text@ =~= old(text)@ + render_node(self.view()));
            },
            ExpressionNode::Subexpression(inner) => {
                text.push('(');
                inner.write_to(text);
                text.push(')');
                assert(text@ =~= old(text)@ + render_node(self.view()));
            },
        }
    }

    /// The text of the node.
    pub fn to_string(&self) -> (text: String)
        ensures
            text@ == render_node(self.view()),
    {
        let mut text = String::new();
        self.write_to(&mut text);
        assert(text@ =~= render_node(self.view()));
        text
    }
}

/// The nodes of an expression as mathematical values.
pub open spec fn nodes_view(nodes: Seq<ExpressionNode>) -> Seq<Node>
    decreases nodes,
{
    Seq::new(
        nodes.len(),
        |i: int|
            if 0 <= i < nodes.len() {
                nodes[i].view()
            } else {
                Node::TruthValue(false)
            },
    )
}

/// The view of a sequence of nodes extended by one node.
pub proof fn lemma_nodes_view_push(nodes: Seq<ExpressionNode>, node: ExpressionNode)
    ensures
        nodes_view(nodes.push(node)) == nodes_view(nodes).push(node.view()),
{
    assert(nodes_view(nodes.push(node)) =~= nodes_view(nodes).push(node.view()));
}

/// The operator that a character spells, if it spells one.
fn operator_of(character: char) -> (operator: Option<Operator>)
    ensures
        match operator {
            Some(operator) => connective_of(character) == Some(operator@),
            None => connective_of(character) is None,
        },
{
    if character == '¬' || character == '!' {
        Some(Operator::Not)
    } else if character == '∧' || character == '&' {
        Some(Operator::And)
    } else if character == '∨' || character == '|' {
        Some(Operator::Or)
    } else if character == '→' || character == '>' {
        Some(Operator::Implies)
    } else {
        None
    }
}

/// Reads the characters from `from` up to `to` as a sequence of nodes.
fn parse_range(chars: &Vec<char>, from: usize, to: usize) -> (result: Result<
    Vec<ExpressionNode>,
    SyntaxError,
>)
    requires
        from <= to <= chars.len(),
    ensures
        match result {
            Ok(nodes) => parse_between(chars@, from as int, to as int) == Ok::<
                Seq<Node>,
                SyntaxError,
            >(nodes_view(nodes@)),
            Err(error) => parse_between(chars@, from as int, to as int) == Err::<
                Seq<Node>,
                SyntaxError,
            >(error),
        },
    decreases to - from,
{
    let mut nodes: Vec<ExpressionNode> = Vec::new();
    let mut i: usize = from;
    proof {
        assert(nodes_view(nodes@) =~= Seq::<Node>::empty());
        lemma_extend_start(parse_between(chars@, from as int, to as int));
    }
    while i < to
        invariant
            from <= i <= to <= chars.len(),
            parse_between(chars@, from as int, to as int) == extend(
                nodes_view(nodes@),
                parse_between(chars@, i as int, to as int),
            ),
        decreases to - i,
    {
        let character = chars[i];
        let ghost read = nodes_view(nodes@);
        if character == ' ' {
            i += 1;
        } else if character == '(' {
            let close = match find_closing(chars, i) {
                Some(close) => close,
                None => {
                    return Err(SyntaxError::UnbalancedParenthesis { position: i });
                },
            };
            if close >= to {
                return Err(SyntaxError::UnbalancedParenthesis { position: i });
            }
            proof {
                lemma_closing_after(chars@, i + 1, 1);
            }
            let inner = match parse_range(chars, i + 1, close) {
                Ok(inner) => inner,
                Err(error) => {
                    return Err(error);
                },
            };
            let node = ExpressionNode::Subexpression(Expression { nodes: inner });
            proof {
                lemma_extend_prepend(
                    read,
                    node.view(),
                    parse_between(chars@, close + 1, to as int),
                );
                lemma_nodes_view_push(nodes@, node);
            }
            nodes.push(node);
            i = close + 1;
        } else if character == ')' {
            return Err(SyntaxError::UnbalancedParenthesis { position: i });
        } else if let Some(operator) = operator_of(character) {
            let node = ExpressionNode::Operator(operator);
            proof {
                lemma_extend_prepend(
                    read,
                    node.view(),
                    parse_between(chars@, i + 1, to as int),
                );
                lemma_nodes_view_push(nodes@, node);
            }
            nodes.push(node);
            i += 1;
        } else if 'a' <= character && character <= 'z' {
            let node = ExpressionNode::Proposition(character);
            proof {
                lemma_extend_prepend(
                    read,
                    node.view(),
                    parse_between(chars@, i + 1, to as int),
                );
                lemma_nodes_view_push(nodes@, node);
            }
            nodes.push(node);
            i += 1;
        } else {
            return Err(SyntaxError::InvalidCharacter { character, position: i });
        }
    }
    proof {
        lemma_extend_done(nodes_view(nodes@));
    }
    Ok(nodes)
}

impl Expression {
    /// The expression as a mathematical formula.
    pub closed spec fn view(self) -> Seq<Node>
        decreases self,
    {
        nodes_view(self.nodes@)
    }

    /// An expression made of the given nodes.
    pub fn new(nodes: Vec<ExpressionNode>) -> (expression: Self)
        ensures
            expression@ == nodes_view(nodes@),
    {
        Expression { nodes }
    }

    /// Reads a formula from its text.
    pub fn parse_str(expression_string: &str) -> (result: Result<Self, SyntaxError>)
        ensures
            match result {
                Ok(expression) => parse(expression_string@) == Ok::<Seq<Node>, SyntaxError>(
                    expression@,
                ),
                Err(error) => parse(expression_string@) == Err::<Seq<Node>, SyntaxError>(error),
            },
    {
        let chars = characters(expression_string);
        match parse_range(&chars, 0, chars.len()) {
            Ok(nodes) => Ok(Expression { nodes }),
            Err(error) => Err(error),
        }
    }

    /// Appends the canonical text of the expression.
    fn write_to(&self, text: &mut String)
        ensures
            final(text)@ == old(text)@ + render(self@),
        decreases self,
    {
        let ghost formula = self@;
        let mut i: usize = 0;
        assert(text@ =~= old(text)@ + gap(formula, 0));
        while i < self.nodes.len()
            invariant
                i <= self.nodes.len(),
                formula == self@,
                old(text)@ + render(formula) == text@ + gap(formula, i as int) + render_from(
                    formula,
                    i as int,
                ),
            decreases self.nodes.len() - i,
        {
            let ghost written = text@;
            proof {
                lemma_render_step(written, formula, i as int);
            }
            if i > 0 && !self.nodes[i - 1].is_negation() {
                text.push(' ');
            }
            assert(text@ =~= written + gap(formula, i as int));
            self.nodes[i].write_to(text);
            i += 1;
        }
        assert(text@ + gap(formula, i as int) + render_from(formula, i as int) =~= text@);
    }

    /// The canonical text of the expression.
    pub fn to_string(&self) -> (text: String)
        ensures
            text@ == render(self@),
    {
        let mut text = String::new();
        self.write_to(&mut text);
        assert(text@ =~= render(self@));
        text
    }

    /// The nodes of the expression.
    pub fn get_nodes(&self) -> (nodes: &Vec<ExpressionNode>)
        ensures
            nodes_view(nodes@) == self@,
    {
        &self.nodes
    }

    /// The fact that the expression asserts outright, if it has come down to
    /// a proposition or to the negation of one.
    pub fn extract_unit_fact(&self) -> (fact: Option<(char, bool)>)
        ensures
            fact == unit_fact(self@),
    {
        if self.nodes.len() == 1 {
            match &self.nodes[0] {
                ExpressionNode::Proposition(id) => Some((*id, true)),
                _ => None,
            }
        } else if self.nodes.len() == 2 && self.nodes[0].is_negation() {
            match &self.nodes[1] {
                ExpressionNode::Proposition(id) => Some((*id, false)),
                _ => None,
            }
        } else {
            None
        }
    }

    /// Replaces every proposition whose value is known by that value.
    pub fn substitute(&mut self, proposition_values: &ValueMap)
        requires
            seeded(old(self)@, proposition_values@),
        ensures
            final(self)@ == substitute(old(self)@, proposition_values@),
            seeded(final(self)@, proposition_values@),
        decreases *old(self),
    {
        let n = self.nodes.len();
        let mut i: usize = 0;
        while i < n
            invariant
                i <= n,
                n == self.nodes.len(),
                self.nodes.len() == old(self).nodes.len(),
                forall|j: int| 0 <= j < i ==> (#[trigger] self.nodes@[j]).view() == substitute_node(old(self).nodes@[j].view(), proposition_values@),
                forall|j: int| i <= j < n ==> self.nodes@[j] == old(self).nodes@[j],
                seeded(old(self)@, proposition_values@),
            decreases n - i,
        {
            proof {
                lemma_propositions_of_node(old(self)@, i as int);
            }
            match &mut self.nodes[i] {
                ExpressionNode::Proposition(id) => {
                    if let Some(value) = proposition_values.get_value(*id) {
                        self.nodes[i] = ExpressionNode::TruthValue(value);
                    }
                },
                ExpressionNode::Subexpression(inner) => {
                    inner.substitute(proposition_values);
                },
                _ => {},
            }
            i += 1;
        }
        assert(self@ =~= substitute(old(self)@, proposition_values@));
        proof {
            lemma_substitute_saturates(old(self)@, proposition_values@);
        }
    }
}

} // verus!
