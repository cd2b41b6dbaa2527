//! The fact table and the deduction that drives it to a fixpoint.
use crate::fixpoint::{
    after_round, collect, lemma_collect_error, lemma_collect_grows,
    lemma_fewer_unknown, lemma_parse_each_error, unknown,
    lemma_round_settles, parse_each, reset, stable, stack_propositions, substitute_each,
    unknown_facts, well_seeded, Contradiction, DeductionView,
};
use crate::formula::{
    known, lemma_propositions_of_node, lemma_propositions_push, propositions, seeded, unit_fact,
    Facts, Node,
};
use crate::history::EvaluationHistory;
use crate::rendering::render_lines;
use crate::premises::{premise_nodes_view, Premise, PremiseNode};
use crate::syntax::SyntaxError;
use std::collections::HashMap;
use vstd::prelude::*;

verus! {

broadcast use vstd::std_specs::hash::group_hash_axioms;

/// The key under which a proposition is stored: its code point.
pub open spec fn key_of(id: char) -> u32 {
    id as u32
}

/// Distinct propositions are stored under distinct keys.
proof fn lemma_key_injective(a: char, b: char)
    ensures
        key_of(a) == key_of(b) ==> a == b,
{
}

fn key_for(id: char) -> (key: u32)
    ensures
        key == key_of(id),
{
    id as u32
}

/// The fact table: what is known of each proposition.
///
/// Entries are keyed by the proposition's code point.
#[derive(Debug)]
pub struct ValueMap {
    values: HashMap<u32, Option<bool>>,
}

impl View for ValueMap {
    type V = Facts;

    closed spec fn view(&self) -> Facts {
        Map::new(
            |id: char| self.values@.contains_key(key_of(id)),
            |id: char| self.values@[key_of(id)],
        )
    }
}

impl Default for ValueMap {
    /// The empty table.
    fn default() -> (table: Self)
        ensures
            table@ == Map::<char, Option<bool>>::empty(),
    {
        let table = ValueMap { values: HashMap::new() };
        assert(table@ =~= Map::<char, Option<bool>>::empty());
        table
    }
}

impl Clone for ValueMap {
    /// A table with the same entries.
    fn clone(&self) -> (copy: Self)
        ensures
            copy@ == self@,
    {
        let copy = ValueMap { values: self.values.clone() };
        assert(copy@ =~= self@);
        copy
    }
}

/// The premises of a stack as mathematical formulas.
pub open spec fn premises_view(premise_stack: Seq<Premise>) -> Seq<Seq<Node>> {
    Seq::new(premise_stack.len(), |i: int| premise_stack[i]@)
}

/// The texts of a list of strings.
pub open spec fn texts_view(strings: Seq<&str>) -> Seq<Seq<char>> {
    Seq::new(strings.len(), |i: int| strings[i]@)
}

impl ValueMap {
    /// A table has entries for finitely many propositions.
    pub proof fn lemma_finite(&self)
        ensures
            self@.dom().finite(),
    {
        let keys = self.values@.dom();
        let back = |key: u32| choose|id: char| key_of(id) == key;
        keys.lemma_map_finite(back);
        assert forall|id: char| self@.dom().contains(id) implies keys.map(back).contains(id) by {
            assert(keys.contains(key_of(id)));
            lemma_key_injective(back(key_of(id)), id);
        }
        vstd::set_lib::lemma_set_subset_finite(keys.map(back), self@.dom());
    }

    /// A table over the given entries, each keyed by its proposition's code
    /// point.
    fn new(values: HashMap<u32, Option<bool>>) -> (table: Self)
        ensures
            table.values == values,
    {
        ValueMap { values }
    }

    /// Sets every proposition of the nodes to unknown, at any depth.
    fn seed(&mut self, nodes: &Vec<PremiseNode>)
        ensures
            final(self)@ == reset(old(self)@, propositions(premise_nodes_view(nodes@))),
        decreases premise_nodes_view(nodes@),
    {
        let ghost formula = premise_nodes_view(nodes@);
        let mut i: usize = 0;
        assert(formula.take(0) =~= Seq::<Node>::empty());
        assert(self@ =~= reset(old(self)@, Set::<char>::empty()));
        while i < nodes.len()
            invariant
                i <= nodes.len(),
                formula == premise_nodes_view(nodes@),
                self@ == reset(old(self)@, propositions(formula.take(i as int))),
            decreases nodes.len() - i,
        {
            let ghost before = self@;
            let ghost seen = propositions(formula.take(i as int));
            proof {
                assert(formula.take(i + 1) =~= formula.take(i as int).push(formula[i as int]));
                lemma_propositions_push(formula.take(i as int), formula[i as int]);
            }
            match &nodes[i] {
                PremiseNode::Proposition(id) => {
                    self.set_value(*id, None);
                    assert(self@ =~= reset(old(self)@, seen.union(set![*id])));
                },
                PremiseNode::Subpremise(inner) => {
                    let inner_nodes = inner.get_nodes();
                    proof {
                        let group = formula[i as int];
                        assert(group == Node::Group(inner@));
                        assert(decreases_to!(formula => group));
                        assert(decreases_to!(group => group->Group_0));
                    }
                    self.seed(inner_nodes);
                    assert(self@ =~= reset(old(self)@, seen.union(propositions(inner@))));
                },
                _ => {
                    assert(seen.union(Set::<char>::empty()) =~= seen);
                },
            }
            i += 1;
        }
        assert(formula.take(nodes.len() as int) =~= formula);
    }

    /// The table in which every proposition of the premises is seeded and
    /// unknown.
    pub fn from_premise_stack(premise_stack: &Vec<Premise>) -> (table: Self)
        ensures
            table@ == unknown_facts(stack_propositions(premises_view(premise_stack@))),
    {
        let mut table = ValueMap::new(HashMap::new());
        let ghost premises = premises_view(premise_stack@);
        let mut i: usize = 0;
        assert(premises.take(0) =~= Seq::<Seq<Node>>::empty());
        assert(table@ =~= unknown_facts(Set::<char>::empty()));
        while i < premise_stack.len()
            invariant
                i <= premise_stack.len(),
                premises == premises_view(premise_stack@),
                table@ == unknown_facts(stack_propositions(premises.take(i as int))),
            decreases premise_stack.len() - i,
        {
            let ghost seen = stack_propositions(premises.take(i as int));
            proof {
                assert(premises.take(i + 1).drop_last() =~= premises.take(i as int));
            }
            table.seed(premise_stack[i].get_nodes());
            assert(table@ =~= unknown_facts(seen.union(propositions(premises[i as int]))));
            i += 1;
        }
        assert(premises.take(premise_stack.len() as int) =~= premises);
        table
    }

    /// Whether the proposition has an entry, known or not.
    pub fn contains(&self, proposition: char) -> (seeded: bool)
        ensures
            seeded == self@.contains_key(proposition),
    {
        let key: u32 = key_for(proposition);
        self.values.contains_key(&key)
    }

    /// The value of a proposition, if known.
    pub fn get_value(&self, proposition: char) -> (value: Option<bool>)
        requires
            self@.contains_key(proposition),
        ensures
            value == self@[proposition],
    {
        let key: u32 = key_for(proposition);
        match self.values.get(&key) {
            Some(value) => *value,
            None => vstd::pervasive::unreached(),
        }
    }

    /// Sets the value of a proposition, seeding it if it had no entry.
    pub fn set_value(&mut self, proposition: char, value: Option<bool>)
        ensures
            final(self)@ == old(self)@.insert(proposition, value),
    {
        let key: u32 = key_for(proposition);
        self.values.insert(key, value);
        assert(self@ =~= old(self)@.insert(proposition, value)) by {
            assert forall|id: char| #[trigger] key_of(id) == key implies id == proposition by {
                lemma_key_injective(id, proposition);
            }
        }
    }
}

/// The premises of a deduction and what is known of their propositions.
///
/// Every proposition that occurs in a premise has an entry in the table.
#[derive(Debug)]
pub struct Deduction {
    premise_stack: Vec<Premise>,
    proposition_values: ValueMap,
}

impl Default for Deduction {
    /// The deduction without premises.
    fn default() -> (deduction: Self)
        ensures
            deduction@.premises == Seq::<Seq<Node>>::empty(),
            deduction@.values == Map::<char, Option<bool>>::empty(),
            well_seeded(deduction@),
    {
        let deduction = Deduction { premise_stack: Vec::new(), proposition_values: ValueMap::default() };
        assert(deduction@.premises =~= Seq::<Seq<Node>>::empty());
        deduction
    }
}

impl Clone for Deduction {
    /// A deduction in the same state, sharing nothing with this one.
    fn clone(&self) -> (copy: Self)
        ensures
            copy@ == self@,
    {
        let mut premise_stack: Vec<Premise> = Vec::new();
        let mut i: usize = 0;
        while i < self.premise_stack.len()
            invariant
                i <= self.premise_stack.len(),
                premise_stack.len() == i,
                forall|j: int| 0 <= j < i ==> (#[trigger] premise_stack@[j])@ == self.premise_stack@[j]@,
            decreases self.premise_stack.len() - i,
        {
            premise_stack.push(self.premise_stack[i].clone());
            i += 1;
        }
        let proposition_values = self.proposition_values.clone();
        assert(premises_view(premise_stack@) =~= premises_view(self.premise_stack@));
        Deduction { premise_stack, proposition_values }
    }
}

impl Deduction {
    /// The deduction as a mathematical value.
    pub closed spec fn view(self) -> DeductionView {
        DeductionView {
            premises: premises_view(self.premise_stack@),
            values: self.proposition_values@,
        }
    }

    /// A deduction over the given premises and table.
    fn new(premise_stack: Vec<Premise>, proposition_values: ValueMap) -> (deduction: Self)
        ensures
            deduction@.premises == premises_view(premise_stack@),
            deduction@.values == proposition_values@,
    {
        Deduction { premise_stack, proposition_values }
    }

    /// Reads every premise from its text and seeds the table with their
    /// propositions, all unknown. Fails with the error of the first text that
    /// is no formula.
    pub fn from_strs(premises: Vec<&str>) -> (result: Result<Self, SyntaxError>)
        ensures
            match result {
                Ok(deduction) => {
                    &&& parse_each(texts_view(premises@)) == Ok::<Seq<Seq<Node>>, SyntaxError>(
                        deduction@.premises,
                    )
                    &&& deduction@.values == unknown_facts(
                        stack_propositions(deduction@.premises),
                    )
                    &&& well_seeded(deduction@)
                },
                Err(error) => parse_each(texts_view(premises@)) == Err::<
                    Seq<Seq<Node>>,
                    SyntaxError,
                >(error),
            },
    {
        let ghost texts = texts_view(premises@);
        let mut premise_stack: Vec<Premise> = Vec::new();
        let mut i: usize = 0;
        assert(texts.take(0) =~= Seq::<Seq<char>>::empty());
        assert(premises_view(premise_stack@) =~= Seq::<Seq<Node>>::empty());
        while i < premises.len()
            invariant
                i <= premises.len(),
                texts == texts_view(premises@),
                parse_each(texts.take(i as int)) == Ok::<Seq<Seq<Node>>, SyntaxError>(
                    premises_view(premise_stack@),
                ),
            decreases premises.len() - i,
        {
            proof {
                assert(texts.take(i + 1).drop_last() =~= texts.take(i as int));
                assert(texts.take(i + 1).last() == premises@[i as int]@);
            }
            match Premise::parse_str(premises[i]) {
                Ok(premise) => {
                    assert(premises_view(premise_stack@.push(premise)) =~= premises_view(
                        premise_stack@,
                    ).push(premise@));
                    premise_stack.push(premise);
                },
                Err(error) => {
                    proof {
                        lemma_parse_each_error(texts, i + 1);
                    }
                    return Err(error);
                },
            }
            i += 1;
        }
        assert(texts.take(premises.len() as int) =~= texts);
        let proposition_values = ValueMap::from_premise_stack(&premise_stack);
        proof {
            lemma_stack_seeded(premises_view(premise_stack@));
        }
        Ok(Deduction::new(premise_stack, proposition_values))
    }

    /// The text of the deduction: each premise on a line of its own.
    pub fn to_string(&self) -> (text: String)
        ensures
            text@ == render_lines(self@.premises),
    {
        let ghost premises = self@.premises;
        let mut text = String::new();
        let mut i: usize = 0;
        assert(premises.take(0) =~= Seq::<Seq<Node>>::empty());
        while i < self.premise_stack.len()
            invariant
                i <= self.premise_stack.len(),
                premises == self@.premises,
                text@ == render_lines(premises.take(i as int)),
            decreases self.premise_stack.len() - i,
        {
            proof {
                assert(premises.take(i + 1).drop_last() =~= premises.take(i as int));
                assert(premises.take(i + 1).last() == self.premise_stack@[i as int]@);
            }
            self.premise_stack[i].write_to(&mut text);
            text.push('\n');
            assert(text@ =~= render_lines(premises.take(i as int)) + crate::rendering::render(
                premises[i as int],
            ) + seq!['\n']);
            i += 1;
        }
        assert(premises.take(self.premise_stack.len() as int) =~= premises);
        text
    }

    /// Whether the deduction has no premises.
    pub fn is_empty(&self) -> (empty: bool)
        ensures
            empty == (self@.premises.len() == 0),
    {
        self.premise_stack.is_empty()
    }

    /// What is known of the propositions.
    pub fn get_values(&self) -> (values: &ValueMap)
        ensures
            values@ == self@.values,
    {
        &self.proposition_values
    }

    /// Substitutes what is known into every premise.
    pub fn substitute_all(&mut self)
        requires
            well_seeded(old(self)@),
        ensures
            final(self)@.premises == substitute_each(old(self)@.premises, old(self)@.values),
            final(self)@.values == old(self)@.values,
            well_seeded(final(self)@),
    {
        let n = self.premise_stack.len();
        let mut i: usize = 0;
        assert forall|j: int| 0 <= j < n implies seeded(
            #[trigger] self.premise_stack@[j]@,
            self.proposition_values@,
        ) by {
            assert(self@.premises[j] == self.premise_stack@[j]@);
        }
        while i < n
            invariant
                i <= n,
                n == self.premise_stack.len(),
                n == old(self).premise_stack.len(),
                self.proposition_values == old(self).proposition_values,
                forall|j: int| 0 <= j < n ==> seeded(#[trigger] self.premise_stack@[j]@, self.proposition_values@),
                forall|j: int|
                    0 <= j < i ==> (#[trigger] self.premise_stack@[j])@ == crate::formula::substitute(
                        old(self).premise_stack@[j]@,
                        old(self).proposition_values@,
                    ),
                forall|j: int| i <= j < n ==> self.premise_stack@[j] == old(self).premise_stack@[j],
            decreases n - i,
        {
            self.premise_stack[i].substitute(&self.proposition_values);
            i += 1;
        }
        assert(self@.premises =~= substitute_each(old(self)@.premises, old(self)@.values));
    }

    /// Writes into the table what each premise asserts outright, in order,
    /// and says whether a value was learned that was not known before. A
    /// premise that asserts the opposite of what is known by then is a
    /// contradiction, and leaves the deduction as it was.
    fn collect_facts(&mut self) -> (result: Result<bool, Contradiction>)
        ensures
            match result {
                Ok(learned) => {
                    &&& collect(old(self)@.values, old(self)@.premises) == Ok::<
                        Facts,
                        Contradiction,
                    >(final(self)@.values)
                    &&& final(self)@.premises == old(self)@.premises
                    &&& learned == (final(self)@.values != old(self)@.values)
                    &&& well_seeded(old(self)@) ==> well_seeded(final(self)@)
                    &&& well_seeded(old(self)@) && learned ==> unknown(old(self)@.values).len()
                        > unknown(final(self)@.values).len()
                },
                Err(contradiction) => {
                    &&& collect(old(self)@.values, old(self)@.premises) == Err::<
                        Facts,
                        Contradiction,
                    >(contradiction)
                    &&& final(self)@ == old(self)@
                },
            },
    {
        let ghost premises = self@.premises;
        let ghost values = self@.values;
        let mut collected = self.proposition_values.clone();
        let mut learned = false;
        let ghost mut witness: char = 'a';
        let ghost mut source: int = 0;
        let n = self.premise_stack.len();
        let mut i: usize = 0;
        assert(premises.take(0) =~= Seq::<Seq<Node>>::empty());
        while i < n
            invariant
                i <= n,
                n == self.premise_stack.len(),
                *self == *old(self),
                premises == self@.premises,
                values == self@.values,
                collect(values, premises.take(i as int)) == Ok::<Facts, Contradiction>(collected@),
                !learned ==> collected@ == values,
                learned ==> {
                    &&& !known(values, witness)
                    &&& known(collected@, witness)
                    &&& 0 <= source < i
                    &&& unit_fact(premises[source]) matches Some((id, _)) && id == witness
                },
            decreases n - i,
        {
            proof {
                assert(premises.take(i + 1).drop_last() =~= premises.take(i as int));
                assert(premises.take(i + 1).last() == premises[i as int]);
            }
            if let Some((proposition, value)) = self.premise_stack[i].get_value_if_root_proposition() {
                let held = if collected.contains(proposition) {
                    collected.get_value(proposition)
                } else {
                    None
                };
                match held {
                    None => {
                        proof {
                            if !learned {
                                witness = proposition;
                                source = i as int;
                            }
                        }
                        collected.set_value(proposition, Some(value));
                        learned = true;
                    },
                    Some(held) => {
                        if held != value {
                            proof {
                                lemma_collect_error(values, premises, i + 1);
                            }
                            return Err(Contradiction { proposition });
                        }
                        assert(collected@ =~= collected@.insert(proposition, Some(value)));
                    },
                }
            }
            i += 1;
        }
        assert(premises.take(n as int) =~= premises);
        proof {
            self.proposition_values.lemma_finite();
            lemma_collect_grows(values, premises);
            if well_seeded(self@) {
                assert forall|j: int| 0 <= j < premises.len() implies seeded(
                    #[trigger] premises[j],
                    collected@,
                ) by {
                    assert(seeded(premises[j], values));
                }
                if learned {
                    assert(seeded(premises[source], values));
                    lemma_propositions_of_node(premises[source], premises[source].len() - 1);
                    lemma_fewer_unknown(values, collected@, witness);
                }
            }
        }
        self.proposition_values = collected;
        Ok(learned)
    }

    /// Writes into the table what each premise asserts outright, in order. A
    /// premise that asserts the opposite of what is known by then is a
    /// contradiction: it is reported, and the deduction is left as it was.
    pub fn update_actual_values(&mut self) -> (result: Result<(), Contradiction>)
        ensures
            match result {
                Ok(_) => {
                    &&& collect(old(self)@.values, old(self)@.premises) == Ok::<
                        Facts,
                        Contradiction,
                    >(final(self)@.values)
                    &&& final(self)@.premises == old(self)@.premises
                    &&& well_seeded(old(self)@) ==> well_seeded(final(self)@)
                },
                Err(contradiction) => {
                    &&& collect(old(self)@.values, old(self)@.premises) == Err::<
                        Facts,
                        Contradiction,
                    >(contradiction)
                    &&& final(self)@ == old(self)@
                },
            },
    {
        match self.collect_facts() {
            Ok(_) => Ok(()),
            Err(contradiction) => Err(contradiction),
        }
    }
}

impl Deduction {
    /// One round: collects what the premises assert outright, then
    /// substitutes what is known into every premise. Says whether the round
    /// learned a value that was not known before. A premise that asserts the
    /// opposite of what is known by then is a contradiction, and leaves the
    /// deduction as it was.
    pub fn round(&mut self) -> (result: Result<bool, Contradiction>)
        requires
            well_seeded(old(self)@),
        ensures
            match result {
                Ok(learned) => {
                    &&& after_round(old(self)@) == Ok::<DeductionView, Contradiction>(
                        final(self)@,
                    )
                    &&& learned == (final(self)@.values != old(self)@.values)
                    &&& learned ==> unknown(old(self)@.values).len() > unknown(
                        final(self)@.values,
                    ).len()
                    &&& well_seeded(final(self)@)
                },
                Err(contradiction) => {
                    &&& after_round(old(self)@) == Err::<DeductionView, Contradiction>(
                        contradiction,
                    )
                    &&& final(self)@ == old(self)@
                },
            },
    {
        let learned = match self.collect_facts() {
            Ok(learned) => learned,
            Err(contradiction) => {
                return Err(contradiction);
            },
        };
        self.substitute_all();
        Ok(learned)
    }

    /// Runs rounds until one learns nothing new, and records the state after
    /// each round. Returns the number of rounds run: one, or two where the
    /// first learned something. A contradiction ends the run with nothing
    /// changed and nothing recorded.
    pub fn run(&mut self, history: &mut EvaluationHistory) -> (result: Result<
        usize,
        Contradiction,
    >)
        requires
            well_seeded(old(self)@),
        ensures
            match result {
                Ok(rounds) => {
                    &&& after_round(old(self)@) == Ok::<DeductionView, Contradiction>(
                        final(self)@,
                    )
                    &&& stable(final(self)@)
                    &&& well_seeded(final(self)@)
                    &&& rounds == if final(self)@.values == old(self)@.values {
                        1usize
                    } else {
                        2usize
                    }
                    &&& rounds <= 1 + unknown(old(self)@.values).len()
                    &&& final(history)@ == old(history)@ + Seq::new(
                        rounds as nat,
                        |i: int| final(self)@,
                    )
                },
                Err(contradiction) => {
                    &&& after_round(old(self)@) == Err::<DeductionView, Contradiction>(
                        contradiction,
                    )
                    &&& final(self)@ == old(self)@
                    &&& final(history)@ == old(history)@
                },
            },
    {
        let mut rounds: usize = 0;
        loop
            invariant
                rounds <= 1,
                well_seeded(self@),
                rounds == 0 ==> self@ == old(self)@ && history@ == old(history)@,
                rounds == 1 ==> {
                    &&& after_round(old(self)@) == Ok::<DeductionView, Contradiction>(self@)
                    &&& self@.values != old(self)@.values
                    &&& unknown(old(self)@.values).len() > 0
                    &&& history@ == old(history)@.push(self@)
                },
            decreases 2 - rounds,
        {
            proof {
                if rounds == 1 {
                    lemma_round_settles(old(self)@);
                }
            }
            let ghost before = self@;
            let learned = match self.round() {
                Ok(learned) => learned,
                Err(contradiction) => {
                    return Err(contradiction);
                },
            };
            proof {
                lemma_round_settles(before);
            }
            history.push(self.clone());
            rounds += 1;
            if !learned {
                assert(history@ =~= old(history)@ + Seq::new(rounds as nat, |i: int| self@));
                return Ok(rounds);
            }
        }
    }
}

/// Premises are seeded in the table made of their propositions.
proof fn lemma_stack_seeded(premises: Seq<Seq<Node>>)
    ensures
        forall|i: int|
            0 <= i < premises.len() ==> seeded(
                #[trigger] premises[i],
                unknown_facts(stack_propositions(premises)),
            ),
    decreases premises.len(),
{
    if premises.len() > 0 {
        lemma_stack_seeded(premises.drop_last());
        assert forall|i: int| 0 <= i < premises.len() implies seeded(
            #[trigger] premises[i],
            unknown_facts(stack_propositions(premises)),
        ) by {
            if i < premises.len() - 1 {
                assert(premises.drop_last()[i] == premises[i]);
            }
        }
    }
}

} // verus!
