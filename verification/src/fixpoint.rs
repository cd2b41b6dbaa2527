//! The mathematical model of a deduction and of the rounds that bring it to
//! a fixpoint.
//!
//! A round reads off what the premises assert outright, writes that into the
//! facts, and substitutes the facts into every premise. A round that learns
//! nothing new leaves a state that no further round changes.
use crate::formula::{
    known, lemma_substitute_saturated, lemma_substitute_saturates, lemma_substitute_unit_fact,
    propositions, saturated, seeded, substitute, unit_fact, Facts, Node,
};
use crate::syntax::{parse, SyntaxError};
use vstd::prelude::*;

verus! {

/// A deduction as a mathematical value: the premises in their order, and
/// what is known of each proposition.
pub struct DeductionView {
    pub premises: Seq<Seq<Node>>,
    pub values: Facts,
}

/// Two premises assert opposite values of one proposition.
#[derive(Debug, Clone, Copy, PartialEq, Eq, Structural)]
pub struct Contradiction {
    pub proposition: char,
}

/// The formulas that the texts spell, or the error of the first text that
/// spells none.
pub open spec fn parse_each(texts: Seq<Seq<char>>) -> Result<Seq<Seq<Node>>, SyntaxError>
    decreases texts.len(),
{
    if texts.len() == 0 {
        Ok(Seq::empty())
    } else {
        match parse_each(texts.drop_last()) {
            Ok(front) => match parse(texts.last()) {
                Ok(formula) => Ok(front.push(formula)),
                Err(error) => Err(error),
            },
            Err(error) => Err(error),
        }
    }
}

/// The propositions that occur in any of the premises.
pub open spec fn stack_propositions(premises: Seq<Seq<Node>>) -> Set<char>
    decreases premises.len(),
{
    if premises.len() == 0 {
        Set::empty()
    } else {
        stack_propositions(premises.drop_last()).union(propositions(premises.last()))
    }
}

/// The facts in which each of the given propositions is seeded and unknown.
pub open spec fn unknown_facts(ids: Set<char>) -> Facts {
    Map::new(|id: char| ids.contains(id), |id: char| None::<bool>)
}

/// The facts after each of the given propositions was set to unknown.
pub open spec fn reset(facts: Facts, ids: Set<char>) -> Facts {
    Map::new(
        |id: char| facts.contains_key(id) || ids.contains(id),
        |id: char|
            if ids.contains(id) {
                None::<bool>
            } else {
                facts[id]
            },
    )
}

/// The propositions that are seeded and whose value is not known.
pub open spec fn unknown(facts: Facts) -> Set<char> {
    facts.dom().filter(|id: char| facts[id] is None)
}

/// Every proposition of every premise has an entry in the facts.
pub open spec fn well_seeded(deduction: DeductionView) -> bool {
    forall|i: int|
        0 <= i < deduction.premises.len() ==> seeded(
            #[trigger] deduction.premises[i],
            deduction.values,
        )
}

/// Every premise after substitution.
pub open spec fn substitute_each(premises: Seq<Seq<Node>>, facts: Facts) -> Seq<Seq<Node>> {
    Seq::new(premises.len(), |i: int| substitute(premises[i], facts))
}

/// The facts after every premise has written what it asserts outright, in
/// order; or the contradiction on the first proposition of which a premise
/// asserts the opposite of what is known by then.
pub open spec fn collect(facts: Facts, premises: Seq<Seq<Node>>) -> Result<Facts, Contradiction>
    decreases premises.len(),
{
    if premises.len() == 0 {
        Ok(facts)
    } else {
        match collect(facts, premises.drop_last()) {
            Ok(before) => match unit_fact(premises.last()) {
                Some((id, value)) => if before.contains_key(id) && before[id] == Some(!value) {
                    Err(Contradiction { proposition: id })
                } else {
                    Ok(before.insert(id, Some(value)))
                },
                None => Ok(before),
            },
            Err(contradiction) => Err(contradiction),
        }
    }
}

/// One round: collect the facts, then substitute them into every premise.
pub open spec fn after_round(deduction: DeductionView) -> Result<DeductionView, Contradiction> {
    match collect(deduction.values, deduction.premises) {
        Ok(values) => Ok(
            DeductionView { premises: substitute_each(deduction.premises, values), values },
        ),
        Err(contradiction) => Err(contradiction),
    }
}

/// A state that a round leaves as it is.
pub open spec fn stable(deduction: DeductionView) -> bool {
    after_round(deduction) == Ok::<DeductionView, Contradiction>(deduction)
}

/// No premise asserts anything outright.
pub open spec fn silent(premises: Seq<Seq<Node>>) -> bool {
    forall|i: int| 0 <= i < premises.len() ==> unit_fact(#[trigger] premises[i]) is None
}

/// Collecting keeps every entry and every known value, and knows what each
/// premise asserts outright.
pub proof fn lemma_collect_grows(facts: Facts, premises: Seq<Seq<Node>>)
    requires
        collect(facts, premises) is Ok,
    ensures
        facts.dom().subset_of(collect(facts, premises)->Ok_0.dom()),
        forall|id: char| #[trigger]
            known(facts, id) ==> collect(facts, premises)->Ok_0[id] == facts[id],
        forall|id: char| #[trigger]
            collect(facts, premises)->Ok_0.contains_key(id) ==> facts.contains_key(id) || known(
                collect(facts, premises)->Ok_0,
                id,
            ),
        forall|i: int|
            0 <= i < premises.len() ==> (#[trigger] unit_fact(premises[i]) matches Some(
                (id, value),
            ) ==> collect(facts, premises)->Ok_0.contains_key(id) && collect(
                facts,
                premises,
            )->Ok_0[id] == Some(value)),
    decreases premises.len(),
{
    if premises.len() > 0 {
        lemma_collect_grows(facts, premises.drop_last());
        let before = collect(facts, premises.drop_last())->Ok_0;
        let after = collect(facts, premises)->Ok_0;
        assert forall|i: int| 0 <= i < premises.len() implies (#[trigger] unit_fact(
            premises[i],
        ) matches Some((id, value)) ==> after.contains_key(id) && after[id] == Some(value)) by {
            if i < premises.len() - 1 {
                assert(premises.drop_last()[i] == premises[i]);
            }
        }
    }
}

/// Premises that assert nothing outright teach nothing.
pub proof fn lemma_collect_silent(facts: Facts, premises: Seq<Seq<Node>>)
    requires
        silent(premises),
    ensures
        collect(facts, premises) == Ok::<Facts, Contradiction>(facts),
    decreases premises.len(),
{
    if premises.len() > 0 {
        assert forall|i: int| 0 <= i < premises.len() - 1 implies unit_fact(
            #[trigger] premises.drop_last()[i],
        ) is None by {
            assert(premises.drop_last()[i] == premises[i]);
        }
        lemma_collect_silent(facts, premises.drop_last());
        assert(unit_fact(premises[premises.len() - 1]) is None);
    }
}

/// A round that succeeds leaves a stable state: a further round changes
/// neither the facts nor the premises.
pub proof fn lemma_round_settles(deduction: DeductionView)
    requires
        after_round(deduction) is Ok,
    ensures
        stable(after_round(deduction)->Ok_0),
        silent(after_round(deduction)->Ok_0.premises),
{
    let after = after_round(deduction)->Ok_0;
    lemma_collect_grows(deduction.values, deduction.premises);
    assert forall|i: int| 0 <= i < after.premises.len() implies unit_fact(
        #[trigger] after.premises[i],
    ) is None by {
        lemma_substitute_unit_fact(deduction.premises[i], after.values);
        assert(unit_fact(deduction.premises[i]) matches Some((id, value)) ==> known(
            after.values,
            id,
        ));
    }
    lemma_collect_silent(after.values, after.premises);
    assert forall|i: int| 0 <= i < after.premises.len() implies substitute(
        #[trigger] after.premises[i],
        after.values,
    ) == after.premises[i] by {
        lemma_substitute_saturates(deduction.premises[i], after.values);
        lemma_substitute_saturated(after.premises[i], after.values);
    }
    assert(substitute_each(after.premises, after.values) =~= after.premises);
}

/// Facts that keep every entry and every known value, and know one
/// proposition more, leave fewer propositions unknown.
pub proof fn lemma_fewer_unknown(before: Facts, after: Facts, learned: char)
    requires
        before.dom().finite(),
        before.dom().subset_of(after.dom()),
        forall|id: char| #[trigger] known(before, id) ==> after[id] == before[id],
        forall|id: char| #[trigger]
            after.contains_key(id) ==> before.contains_key(id) || known(after, id),
        before.contains_key(learned),
        before[learned] is None,
        after[learned] is Some,
    ensures
        unknown(after).len() < unknown(before).len(),
{
    assert(unknown(after).subset_of(unknown(before).remove(learned))) by {
        assert forall|id: char| unknown(after).contains(id) implies unknown(before).remove(
            learned,
        ).contains(id) by {
            assert(after.contains_key(id));
            if known(before, id) {
                assert(after[id] == before[id]);
            }
        }
    }
    vstd::set_lib::lemma_len_subset(unknown(after), unknown(before).remove(learned));
}

/// A contradiction among the first premises is the contradiction of all of
/// them.
pub proof fn lemma_collect_error(facts: Facts, premises: Seq<Seq<Node>>, count: int)
    requires
        0 <= count <= premises.len(),
        collect(facts, premises.take(count)) is Err,
    ensures
        collect(facts, premises) == collect(facts, premises.take(count)),
    decreases premises.len() - count,
{
    if count < premises.len() {
        assert(premises.take(count + 1).drop_last() == premises.take(count));
        lemma_collect_error(facts, premises, count + 1);
    } else {
        assert(premises.take(count) == premises);
    }
}

/// An error among the first texts is the error of all of them.
pub proof fn lemma_parse_each_error(texts: Seq<Seq<char>>, count: int)
    requires
        0 <= count <= texts.len(),
        parse_each(texts.take(count)) is Err,
    ensures
        parse_each(texts) == parse_each(texts.take(count)),
    decreases texts.len() - count,
{
    if count < texts.len() {
        assert(texts.take(count + 1).drop_last() == texts.take(count));
        lemma_parse_each_error(texts, count + 1);
    } else {
        assert(texts.take(count) == texts);
    }
}

} // verus!
