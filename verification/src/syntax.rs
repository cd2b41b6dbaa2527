//! The grammar of formulas: what a text means as a formula, and why a text
//! that is no formula is rejected.
//!
//! A text is read from left to right, one character at a time. Spaces
//! separate; a lowercase letter is a proposition; each connective has a
//! glyph and an ASCII spelling; parentheses group. Positions count
//! characters from zero.
use crate::formula::{Connective, Node};
use vstd::prelude::*;

verus! {

/// Why a text is not a formula.
#[derive(Debug, Clone, Copy, PartialEq, Eq, Structural)]
pub enum SyntaxError {
    /// A character that the grammar has no use for.
    InvalidCharacter { character: char, position: usize },
    /// A parenthesis that is never closed, or one that closes nothing.
    UnbalancedParenthesis { position: usize },
}

/// The connective that a character spells, if it spells one.
pub open spec fn connective_of(character: char) -> Option<Connective> {
    if character == '¬' || character == '!' {
        Some(Connective::Not)
    } else if character == '∧' || character == '&' {
        Some(Connective::And)
    } else if character == '∨' || character == '|' {
        Some(Connective::Or)
    } else if character == '→' || character == '>' {
        Some(Connective::Implies)
    } else {
        None
    }
}

/// Whether a character names a proposition.
pub open spec fn is_proposition_letter(character: char) -> bool {
    'a' <= character <= 'z'
}

/// The position, at or after `from`, of the parenthesis that brings the
/// nesting back to zero, when `depth` parentheses are open at `from`.
pub open spec fn closing(text: Seq<char>, from: int, depth: nat) -> Option<int>
    decreases text.len() - from,
{
    if from < 0 || from >= text.len() {
        None
    } else if text[from] == ')' {
        if depth <= 1 {
            Some(from)
        } else {
            closing(text, from + 1, (depth - 1) as nat)
        }
    } else if text[from] == '(' {
        closing(text, from + 1, depth + 1)
    } else {
        closing(text, from + 1, depth)
    }
}

/// The closing parenthesis is not before the place where its search began.
pub proof fn lemma_closing_after(text: Seq<char>, from: int, depth: nat)
    ensures
        closing(text, from, depth) matches Some(close) ==> from <= close < text.len(),
    decreases text.len() - from,
{
    if 0 <= from < text.len() {
        if text[from] == ')' {
            if depth > 1 {
                lemma_closing_after(text, from + 1, (depth - 1) as nat);
            }
        } else if text[from] == '(' {
            lemma_closing_after(text, from + 1, depth + 1);
        } else {
            lemma_closing_after(text, from + 1, depth);
        }
    }
}

/// A node put in front of what the rest of the text gave.
pub open spec fn prepend(node: Node, rest: Result<Seq<Node>, SyntaxError>) -> Result<
    Seq<Node>,
    SyntaxError,
> {
    match rest {
        Ok(nodes) => Ok(seq![node] + nodes),
        Err(error) => Err(error),
    }
}

/// The formula that the characters from `from` up to `to` spell, or the
/// first reason why they spell none.
pub open spec fn parse_between(text: Seq<char>, from: int, to: int) -> Result<
    Seq<Node>,
    SyntaxError,
>
    decreases to - from,
{
    if from < 0 || from >= to {
        Ok(Seq::empty())
    } else {
        let character = text[from];
        if character == ' ' {
            parse_between(text, from + 1, to)
        } else if character == '(' {
            match closing(text, from + 1, 1) {
                Some(close) if from < close < to => match parse_between(text, from + 1, close) {
                    Ok(inner) => prepend(Node::Group(inner), parse_between(text, close + 1, to)),
                    Err(error) => Err(error),
                },
                _ => Err(SyntaxError::UnbalancedParenthesis { position: from as usize }),
            }
        } else if character == ')' {
            Err(SyntaxError::UnbalancedParenthesis { position: from as usize })
        } else if connective_of(character) is Some {
            prepend(Node::Operator(connective_of(character)->0), parse_between(text, from + 1, to))
        } else if is_proposition_letter(character) {
            prepend(Node::Proposition(character), parse_between(text, from + 1, to))
        } else {
            Err(SyntaxError::InvalidCharacter { character, position: from as usize })
        }
    }
}

/// The formula that a text spells, or the first reason why it spells none.
pub open spec fn parse(text: Seq<char>) -> Result<Seq<Node>, SyntaxError> {
    parse_between(text, 0, text.len() as int)
}

/// What was read so far, followed by what the rest of the text gave.
pub open spec fn extend(read: Seq<Node>, rest: Result<Seq<Node>, SyntaxError>) -> Result<
    Seq<Node>,
    SyntaxError,
> {
    match rest {
        Ok(nodes) => Ok(read + nodes),
        Err(error) => Err(error),
    }
}

/// Reading one node more moves it from the rest to what was read.
pub proof fn lemma_extend_prepend(
    read: Seq<Node>,
    node: Node,
    rest: Result<Seq<Node>, SyntaxError>,
)
    ensures
        extend(read, prepend(node, rest)) == extend(read.push(node), rest),
{
    if let Ok(nodes) = rest {
        assert(read + (seq![node] + nodes) =~= read.push(node) + nodes);
    }
}

/// With nothing read yet, the formula is what the text gives.
pub proof fn lemma_extend_start(rest: Result<Seq<Node>, SyntaxError>)
    ensures
        extend(Seq::empty(), rest) == rest,
{
    if let Ok(nodes) = rest {
        assert(Seq::<Node>::empty() + nodes =~= nodes);
    }
}

/// With nothing left to read, what was read is the formula.
pub proof fn lemma_extend_done(read: Seq<Node>)
    ensures
        extend(read, Ok(Seq::empty())) == Ok::<Seq<Node>, SyntaxError>(read),
{
    assert(read + Seq::<Node>::empty() =~= read);
}

/// The characters of a text, in order.
pub fn characters(text: &str) -> (chars: Vec<char>)
    ensures
        chars@ == text@,
{
    let mut chars: Vec<char> = Vec::new();
    for character in it: text.chars()
        invariant
            chars@ == it.seq().take(it.index() as int),
            it.seq() == text@,
    {
        chars.push(character);
    }
    chars
}

/// Finds the parenthesis that closes the one opened at `open`: the first
/// position after `open` at which as many parentheses have been closed as
/// were opened, the one at `open` included.
pub fn find_closing(chars: &Vec<char>, open: usize) -> (found: Option<usize>)
    ensures
        match found {
            Some(close) => closing(chars@, open + 1, 1) == Some(close as int),
            None => closing(chars@, open + 1, 1) is None,
        },
{
    if open >= chars.len() {
        return None;
    }
    let mut depth: usize = 1;
    let mut i: usize = open + 1;
    while i < chars.len()
        invariant
            open < i,
            1 <= depth <= i - open,
            closing(chars@, open + 1, 1) == closing(chars@, i as int, depth as nat),
        decreases chars.len() - i,
    {
        let character = chars[i];
        if character == ')' {
            if depth == 1 {
                return Some(i);
            }
            depth -= 1;
        } else if character == '(' {
            depth += 1;
        }
        i += 1;
    }
    None
}

} // verus!
