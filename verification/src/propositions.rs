//! Formulas kept as plain text, with known values written out in capitals.
use crate::deductions::ValueMap;
use crate::formula::{known, Facts};
use crate::syntax::characters;
use vstd::prelude::*;

verus! {

/// A formula as the text it was written with.
pub struct Proposition {
    proposition_string: String,
}

/// What a character is written as once the facts are known: `TRUE` or
/// `FALSE` for a proposition with a known value, and itself otherwise.
pub open spec fn written_out(character: char, facts: Facts) -> Seq<char> {
    if known(facts, character) {
        if facts[character]->0 {
            seq!['T', 'R', 'U', 'E']
        } else {
            seq!['F', 'A', 'L', 'S', 'E']
        }
    } else {
        seq![character]
    }
}

/// A text with every character written out, all at once: what is written in
/// place of one character is not read again.
pub open spec fn spell_out(text: Seq<char>, facts: Facts) -> Seq<char>
    decreases text.len(),
{
    if text.len() == 0 {
        Seq::empty()
    } else {
        spell_out(text.drop_last(), facts) + written_out(text.last(), facts)
    }
}

impl View for Proposition {
    type V = Seq<char>;

    closed spec fn view(&self) -> Seq<char> {
        self.proposition_string@
    }
}

impl Proposition {
    /// The empty text.
    pub fn new() -> (proposition: Self)
        ensures
            proposition@ == Seq::<char>::empty(),
    {
        Proposition { proposition_string: String::new() }
    }

    /// The proposition with the given text.
    pub fn from_str(proposition_string: &str) -> (proposition: Self)
        ensures
            proposition@ == proposition_string@,
    {
        Proposition { proposition_string: proposition_string.to_owned() }
    }

    /// The text of the proposition.
    pub fn get_string(&self) -> (text: &str)
        ensures
            text@ == self@,
    {
        self.proposition_string.as_str()
    }

    /// The text of the proposition.
    pub fn to_string(&self) -> (text: String)
        ensures
            text@ == self@,
    {
        self.proposition_string.clone()
    }

    /// Writes out every proposition whose value is known: `TRUE` or `FALSE`
    /// takes its place in the text.
    pub fn substitute(&mut self, values: &ValueMap)
        ensures
            final(self)@ == spell_out(old(self)@, values@),
    {
        let chars = characters(self.proposition_string.as_str());
        let mut text = String::new();
        let mut i: usize = 0;
        assert(chars@.take(0) =~= Seq::<char>::empty());
        while i < chars.len()
            invariant
                i <= chars.len(),
                chars@ == old(self)@,
                text@ == spell_out(chars@.take(i as int), values@),
            decreases chars.len() - i,
        {
            let character = chars[i];
            let ghost written = text@;
            proof {
                assert(chars@.take(i + 1).drop_last() =~= chars@.take(i as int));
            }
            let value = if values.contains(character) {
                values.get_value(character)
            } else {
                None
            };
            match value {
                Some(true) => {
                    text.push('T');
                    text.push('R');
                    text.push('U');
                    text.push('E');
                },
                Some(false) => {
                    text.push('F');
                    text.push('A');
                    text.push('L');
                    text.push('S');
                    text.push('E');
                },
                None => {
                    text.push(character);
                },
            }
            assert(text@ =~= written + written_out(character, values@));
            i += 1;
        }
        assert(chars@.take(chars.len() as int) =~= chars@);
        self.proposition_string = text;
    }
}

} // verus!
