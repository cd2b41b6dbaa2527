use deduction::expressions::{Expression, ExpressionNode, Operator};
use deduction::{Contradiction, Deduction, EvaluationHistory, ValueMap};

#[test]
fn canonical_formula_keeps_its_structure() {
    let expression = Expression::parse_str("a ∧ b ∨ (c → d)").unwrap();
    let nodes = expression.get_nodes();
    assert_eq!(nodes.len(), 5);
    assert_eq!(nodes[0], ExpressionNode::Proposition('a'));
    assert_eq!(nodes[1], ExpressionNode::Operator(Operator::And));
    assert_eq!(nodes[2], ExpressionNode::Proposition('b'));
    assert_eq!(nodes[3], ExpressionNode::Operator(Operator::Or));
    assert_eq!(
        nodes[4],
        ExpressionNode::Subexpression(Expression::new(vec![
            ExpressionNode::Proposition('c'),
            ExpressionNode::Operator(Operator::Implies),
            ExpressionNode::Proposition('d'),
        ]))
    );
    assert_eq!(expression.to_string(), "a ∧ b ∨ (c → d)");
    assert_eq!(
        Expression::parse_str("a & b | (c > d)").unwrap().to_string(),
        "a ∧ b ∨ (c → d)"
    );
}

#[test]
fn both_spellings_parse_alike() {
    assert_eq!(
        Expression::parse_str("(m & b) > j").unwrap(),
        Expression::parse_str("(m ∧ b) → j").unwrap()
    );
    assert_eq!(
        Expression::parse_str("a & B"),
        Expression::parse_str("a ∧ B")
    );
}

#[test]
fn substitution_keeps_count_and_order() {
    let mut expression = Expression::parse_str("a ∧ b ∨ (c → d)").unwrap();
    let mut values = ValueMap::default();
    values.set_value('a', Some(true));
    values.set_value('c', Some(false));
    values.set_value('b', None);
    values.set_value('d', None);
    expression.substitute(&values);
    let nodes = expression.get_nodes();
    assert_eq!(nodes.len(), 5);
    assert_eq!(nodes[0], ExpressionNode::TruthValue(true));
    assert_eq!(nodes[2], ExpressionNode::Proposition('b'));
    match &nodes[4] {
        ExpressionNode::Subexpression(inner) => {
            assert_eq!(inner.get_nodes().len(), 3);
            assert_eq!(inner.get_nodes()[0], ExpressionNode::TruthValue(false));
            assert_eq!(inner.get_nodes()[2], ExpressionNode::Proposition('d'));
        }
        other => panic!("expected a subexpression, found {:?}", other),
    }
}

#[test]
fn unit_facts_of_the_two_shapes() {
    let alone = Expression::new(vec![ExpressionNode::Proposition('f')]);
    assert_eq!(alone.extract_unit_fact(), Some(('f', true)));
    let negated = Expression::new(vec![
        ExpressionNode::Operator(Operator::Not),
        ExpressionNode::Proposition('t'),
    ]);
    assert_eq!(negated.extract_unit_fact(), Some(('t', false)));
    let three = Expression::new(vec![
        ExpressionNode::Operator(Operator::Not),
        ExpressionNode::Operator(Operator::Not),
        ExpressionNode::Proposition('t'),
    ]);
    assert_eq!(three.extract_unit_fact(), None);
    let literal = Expression::new(vec![ExpressionNode::TruthValue(false)]);
    assert_eq!(literal.extract_unit_fact(), None);
}

#[test]
fn worked_example_stabilizes_within_the_bound() {
    let mut deduction = Deduction::from_strs(vec![
        "(m ∧ b) → j",
        "(f ∨ s) → m",
        "b → t",
        "f → ¬t",
        "f",
    ])
    .unwrap();
    let mut history = EvaluationHistory::new();
    let rounds = deduction.run(&mut history).unwrap();
    let propositions = ['m', 'b', 'j', 'f', 's', 't'];
    assert!(rounds <= propositions.len());
    assert_eq!(rounds, 2);
    assert_eq!(history.len(), rounds);
    assert_eq!(deduction.get_values().get_value('f'), Some(true));
    assert_eq!(deduction.get_values().get_value('s'), None);
    assert_eq!(
        deduction.to_string(),
        "(m ∧ b) → j\n(true ∨ s) → m\nb → t\ntrue → ¬t\ntrue\n"
    );
    // No premise has come down to a proposition or its negation, so
    // substitution and unit facts alone settle nothing more.
    for id in ['m', 'b', 'j', 't'] {
        assert_eq!(deduction.get_values().get_value(id), None);
    }
}

#[test]
fn opposite_unit_facts_are_a_contradiction() {
    let mut deduction = Deduction::from_strs(vec!["p", "¬p"]).unwrap();
    let mut history = EvaluationHistory::new();
    assert_eq!(
        deduction.run(&mut history),
        Err(Contradiction { proposition: 'p' })
    );
    assert_eq!(deduction.get_values().get_value('p'), None);
    assert_eq!(deduction.to_string(), "p\n¬p\n");
    assert_eq!(history.len(), 0);

    let mut deduction = Deduction::from_strs(vec!["p", "¬p"]).unwrap();
    assert_eq!(
        deduction.update_actual_values(),
        Err(Contradiction { proposition: 'p' })
    );
    assert_eq!(deduction.get_values().get_value('p'), None);
    assert_eq!(deduction.round(), Err(Contradiction { proposition: 'p' }));
    assert_eq!(deduction.get_values().get_value('p'), None);
}

#[test]
fn a_round_after_the_fixpoint_changes_nothing() {
    for premises in [
        vec!["f", "f > !t", "(f | s) > m"],
        vec!["a > b"],
        vec!["!x", "y", "(x | y) & z"],
        vec![],
    ] {
        let mut deduction = Deduction::from_strs(premises).unwrap();
        let mut history = EvaluationHistory::new();
        deduction.run(&mut history).unwrap();
        let text = deduction.to_string();
        let values = deduction.get_values().clone();
        assert_eq!(deduction.round(), Ok(false));
        assert_eq!(deduction.to_string(), text);
        for id in ['f', 't', 's', 'm', 'a', 'b', 'x', 'y', 'z'] {
            assert_eq!(deduction.get_values().contains(id), values.contains(id));
            if values.contains(id) {
                assert_eq!(deduction.get_values().get_value(id), values.get_value(id));
            }
        }
    }
}

#[test]
fn rounds_are_bounded_by_the_unknown_propositions() {
    let cases: Vec<(Vec<&str>, usize, usize)> = vec![
        (vec!["p"], 1, 2),
        (vec!["p", "!q", "r"], 3, 2),
        (vec!["a > b"], 2, 1),
        (vec!["(p)"], 1, 1),
        (vec![], 0, 1),
    ];
    for (premises, unknown, expected) in cases {
        let mut deduction = Deduction::from_strs(premises).unwrap();
        let mut history = EvaluationHistory::new();
        let rounds = deduction.run(&mut history).unwrap();
        assert_eq!(rounds, expected);
        assert!(rounds <= 1 + unknown);
        assert_eq!(history.len(), rounds);
    }
}
