//! Reading and writing agree: the canonical text of a formula spells that
//! formula, whatever spelling it was first read from.
use crate::formula::{Connective, Node};
use crate::rendering::{gap, glyph, render, render_from, render_node};
use crate::syntax::{
    closing, connective_of, is_proposition_letter, parse, parse_between, prepend, SyntaxError,
};
use vstd::prelude::*;

verus! {

/// Two characters that the grammar does not tell apart: the same character,
/// or two spellings of one connective.
pub open spec fn same_spelling(first: char, second: char) -> bool {
    first == second || (connective_of(first) is Some && connective_of(first) == connective_of(
        second,
    ))
}

/// Two texts that differ only in how they spell their connectives.
pub open spec fn alike(first: Seq<char>, second: Seq<char>) -> bool {
    &&& first.len() == second.len()
    &&& forall|i: int| 0 <= i < first.len() ==> same_spelling(#[trigger] first[i], second[i])
}

/// Texts that are alike close their parentheses at the same places.
proof fn lemma_alike_closing(first: Seq<char>, second: Seq<char>, from: int, depth: nat)
    requires
        alike(first, second),
    ensures
        closing(first, from, depth) == closing(second, from, depth),
    decreases first.len() - from,
{
    if 0 <= from < first.len() {
        assert(same_spelling(first[from], second[from]));
        if first[from] == ')' {
            if depth > 1 {
                lemma_alike_closing(first, second, from + 1, (depth - 1) as nat);
            }
        } else if first[from] == '(' {
            lemma_alike_closing(first, second, from + 1, depth + 1);
        } else {
            lemma_alike_closing(first, second, from + 1, depth);
        }
    }
}

/// Texts that are alike spell the same between the same places.
proof fn lemma_alike_between(first: Seq<char>, second: Seq<char>, from: int, to: int)
    requires
        alike(first, second),
        to <= first.len(),
    ensures
        parse_between(first, from, to) == parse_between(second, from, to),
    decreases to - from,
{
    if 0 <= from < to {
        let character = first[from];
        assert(same_spelling(character, second[from]));
        if character == ' ' {
            lemma_alike_between(first, second, from + 1, to);
        } else if character == '(' {
            lemma_alike_closing(first, second, from + 1, 1);
            if let Some(close) = closing(first, from + 1, 1) {
                if from < close < to {
                    lemma_alike_between(first, second, from + 1, close);
                    lemma_alike_between(first, second, close + 1, to);
                }
            }
        } else if character == ')' {
        } else {
            lemma_alike_between(first, second, from + 1, to);
        }
    }
}

/// The ASCII spelling of a connective and its glyph are interchangeable:
/// two texts that differ only in how they spell their connectives spell the
/// same formula, or fail with the same error.
pub proof fn lemma_spelling_is_immaterial(first: Seq<char>, second: Seq<char>)
    requires
        alike(first, second),
    ensures
        parse(first) == parse(second),
{
    lemma_alike_between(first, second, 0, first.len() as int);
}

/// A node as a text can spell it: a proposition named by a lowercase letter,
/// a connective, or a group of such nodes. A truth value is not spelled: it
/// arises by substitution only.
pub open spec fn spelled_node(node: Node) -> bool
    decreases node,
{
    match node {
        Node::Proposition(id) => is_proposition_letter(id),
        Node::TruthValue(_) => false,
        Node::Operator(_) => true,
        Node::Group(inner) => spelled(inner),
    }
}

/// A formula as a text can spell it.
pub open spec fn spelled(formula: Seq<Node>) -> bool
    decreases formula,
{
    forall|i: int| 0 <= i < formula.len() ==> spelled_node(#[trigger] formula[i])
}

/// The characters of `part` stand in `text` from `at` on.
pub open spec fn stands_at(text: Seq<char>, at: int, part: Seq<char>) -> bool {
    &&& 0 <= at
    &&& at + part.len() <= text.len()
    &&& forall|k: int| 0 <= k < part.len() ==> text[at + k] == #[trigger] part[k]
}

/// Where two parts stand one after the other, each stands in its place.
proof fn lemma_stands_split(text: Seq<char>, at: int, first: Seq<char>, second: Seq<char>)
    requires
        stands_at(text, at, first + second),
    ensures
        stands_at(text, at, first),
        stands_at(text, at + first.len(), second),
{
    let whole = first + second;
    assert forall|k: int| 0 <= k < first.len() implies text[at + k] == #[trigger] first[k] by {
        assert(whole[k] == first[k]);
    }
    assert forall|k: int| 0 <= k < second.len() implies text[at + first.len() + k]
        == #[trigger] second[k] by {
        assert(whole[first.len() + k] == second[k]);
    }
}

/// What is left to write of a formula from `index` on: the gap before the
/// node at `index`, and the nodes from there.
pub open spec fn remainder(formula: Seq<Node>, index: int) -> Seq<char> {
    gap(formula, index) + render_from(formula, index)
}

/// The remainder from `index` on begins with a gap and a node, and goes on
/// with the remainder from the next node on.
proof fn lemma_remainder_unfolds(formula: Seq<Node>, index: int)
    requires
        0 <= index < formula.len(),
    ensures
        remainder(formula, index) == gap(formula, index) + (render_node(formula[index])
            + remainder(formula, index + 1)),
{
    assert(remainder(formula, index) =~= gap(formula, index) + (render_node(formula[index])
        + remainder(formula, index + 1)));
}

/// The search for a closing parenthesis passes over the text of a node.
proof fn lemma_closing_passes_node(text: Seq<char>, at: int, node: Node, depth: nat)
    requires
        spelled_node(node),
        depth >= 1,
        stands_at(text, at, render_node(node)),
    ensures
        closing(text, at, depth) == closing(text, at + render_node(node).len(), depth),
    decreases node, 0nat,
{
    let part = render_node(node);
    match node {
        Node::Proposition(id) => {
            assert(text[at + 0] == part[0]);
        },
        Node::TruthValue(_) => {},
        Node::Operator(connective) => {
            assert(text[at + 0] == part[0]);
        },
        Node::Group(inner) => {
            let inside = render_from(inner, 0);
            assert(part == seq!['('] + (inside + seq![')'])) by {
                assert(part =~= seq!['('] + (inside + seq![')']));
            }
            lemma_stands_split(text, at, seq!['('], inside + seq![')']);
            lemma_stands_split(text, at + 1, inside, seq![')']);
            assert(text[at + 0] == seq!['('][0]);
            assert(text[at + 1 + inside.len() + 0] == seq![')'][0]);
            assert(remainder(inner, 0) =~= inside);
            lemma_closing_passes(text, at + 1, inner, 0, depth + 1);
        },
    }
}

/// The search for a closing parenthesis passes over the text of a formula.
proof fn lemma_closing_passes(
    text: Seq<char>,
    at: int,
    formula: Seq<Node>,
    index: int,
    depth: nat,
)
    requires
        spelled(formula),
        0 <= index <= formula.len(),
        depth >= 1,
        stands_at(text, at, remainder(formula, index)),
    ensures
        closing(text, at, depth) == closing(text, at + remainder(formula, index).len(), depth),
    decreases formula, formula.len() - index,
{
    if index < formula.len() {
        let space = gap(formula, index);
        let node = render_node(formula[index]);
        let rest = remainder(formula, index + 1);
        lemma_remainder_unfolds(formula, index);
        lemma_stands_split(text, at, space, node + rest);
        lemma_stands_split(text, at + space.len(), node, rest);
        if space.len() > 0 {
            assert(text[at + 0] == space[0]);
        }
        lemma_closing_passes_node(text, at + space.len(), formula[index], depth);
        lemma_closing_passes(text, at + space.len() + node.len(), formula, index + 1, depth);
    } else {
        assert(remainder(formula, index) =~= Seq::<char>::empty());
    }
}

/// Read from where the rest of a formula's text stands, the text up to its
/// end spells the rest of the formula.
proof fn lemma_parse_remainder(text: Seq<char>, at: int, formula: Seq<Node>, index: int)
    requires
        spelled(formula),
        0 <= index <= formula.len(),
        stands_at(text, at, remainder(formula, index)),
    ensures
        parse_between(text, at, at + remainder(formula, index).len()) == Ok::<
            Seq<Node>,
            SyntaxError,
        >(formula.skip(index)),
    decreases formula, formula.len() - index,
{
    let to = at + remainder(formula, index).len();
    if index < formula.len() {
        let space = gap(formula, index);
        let current = formula[index];
        let node = render_node(current);
        let rest = remainder(formula, index + 1);
        lemma_remainder_unfolds(formula, index);
        lemma_stands_split(text, at, space, node + rest);
        lemma_stands_split(text, at + space.len(), node, rest);
        if space.len() > 0 {
            assert(text[at + 0] == space[0]);
        }
        let start = at + space.len();
        let next = start + node.len();
        assert(parse_between(text, at, to) == parse_between(text, start, to));
        lemma_parse_remainder(text, next, formula, index + 1);
        let tail = parse_between(text, next, to);
        assert(seq![current] + formula.skip(index + 1) =~= formula.skip(index));
        match current {
            Node::Proposition(id) => {
                assert(text[start + 0] == node[0]);
            },
            Node::TruthValue(_) => {},
            Node::Operator(connective) => {
                assert(text[start + 0] == node[0]);
            },
            Node::Group(inner) => {
                let inside = render_from(inner, 0);
                assert(node == seq!['('] + (inside + seq![')'])) by {
                    assert(node =~= seq!['('] + (inside + seq![')']));
                }
                lemma_stands_split(text, start, seq!['('], inside + seq![')']);
                lemma_stands_split(text, start + 1, inside, seq![')']);
                assert(text[start + 0] == seq!['('][0]);
                let close = start + 1 + inside.len();
                assert(text[close + 0] == seq![')'][0]);
                assert(remainder(inner, 0) =~= inside);
                lemma_closing_passes(text, start + 1, inner, 0, 1);
                assert(closing(text, start + 1, 1) == Some(close));
                lemma_parse_remainder(text, start + 1, inner, 0);
                assert(inner.skip(0) =~= inner);
            },
        }
    } else {
        assert(remainder(formula, index) =~= Seq::<char>::empty());
        assert(formula.skip(index) =~= Seq::<Node>::empty());
    }
}

/// What a stretch of text spells is a formula as a text can spell it.
proof fn lemma_parse_between_spelled(text: Seq<char>, from: int, to: int)
    requires
        parse_between(text, from, to) is Ok,
    ensures
        spelled(parse_between(text, from, to)->Ok_0),
    decreases to - from,
{
    if 0 <= from < to {
        let character = text[from];
        if character == ' ' {
            lemma_parse_between_spelled(text, from + 1, to);
        } else if character == '(' {
            let close = closing(text, from + 1, 1)->0;
            lemma_parse_between_spelled(text, from + 1, close);
            lemma_parse_between_spelled(text, close + 1, to);
        } else if character == ')' {
        } else {
            lemma_parse_between_spelled(text, from + 1, to);
        }
    }
}

/// A formula that a text spells has no truth values, and its propositions
/// are lowercase letters.
pub proof fn lemma_parse_spelled(text: Seq<char>)
    requires
        parse(text) is Ok,
    ensures
        spelled(parse(text)->Ok_0),
{
    lemma_parse_between_spelled(text, 0, text.len() as int);
}

/// Writing a formula and reading the text back gives the formula: the
/// canonical text keeps the structure.
pub proof fn lemma_parse_render(formula: Seq<Node>)
    requires
        spelled(formula),
    ensures
        parse(render(formula)) == Ok::<Seq<Node>, SyntaxError>(formula),
{
    let text = render(formula);
    assert(remainder(formula, 0) =~= text);
    lemma_parse_remainder(text, 0, formula, 0);
    assert(formula.skip(0) =~= formula);
}

/// Whatever spelling a formula was read from, its canonical text spells the
/// same formula, and is the canonical text of what it spells.
pub proof fn lemma_canonical_text(text: Seq<char>)
    requires
        parse(text) is Ok,
    ensures
        parse(render(parse(text)->Ok_0)) == parse(text),
        render(parse(render(parse(text)->Ok_0))->Ok_0) == render(parse(text)->Ok_0),
{
    lemma_parse_spelled(text);
    lemma_parse_render(parse(text)->Ok_0);
}

} // verus!
