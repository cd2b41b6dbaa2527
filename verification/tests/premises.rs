use deduction::premises::{Operator, Premise, PremiseNode};
use deduction::{Expression, ValueMap};

#[test]
fn premises_test_parse_simple() {
    let premise = Premise::parse_str("a").unwrap();

    assert_eq!(premise.get_nodes().len(), 1);
    assert_eq!(premise.get_nodes()[0], PremiseNode::Proposition('a'));
}

#[test]
fn premises_test_parse_complex_1() {
    let premise = Premise::parse_str("a ∧ b ∨ (c → d)").unwrap();

    assert_eq!(premise.get_nodes().len(), 5);
    assert_eq!(premise.get_nodes()[0], PremiseNode::Proposition('a'));
    assert_eq!(
        premise.get_nodes()[1],
        PremiseNode::Operator(Operator::And)
    );
    assert_eq!(premise.get_nodes()[2], PremiseNode::Proposition('b'));
    assert_eq!(
        premise.get_nodes()[3],
        PremiseNode::Operator(Operator::Or)
    );
    assert!(matches!(
        premise.get_nodes()[4],
        PremiseNode::Subpremise(_)
    ));

    if let PremiseNode::Subpremise(subpremise) = &premise.get_nodes()[4] {
        assert_eq!(subpremise.get_nodes().len(), 3);
        assert_eq!(
            subpremise.get_nodes()[0],
            PremiseNode::Proposition('c')
        );
        assert_eq!(
            subpremise.get_nodes()[1],
            PremiseNode::Operator(Operator::Implies)
        );
        assert_eq!(
            subpremise.get_nodes()[2],
            PremiseNode::Proposition('d')
        );
    }
}

#[test]
fn premises_test_parse_complex_2() {
    let premise = Premise::parse_str("(m & b) > j").unwrap();

    assert_eq!(premise.get_nodes().len(), 3);

    assert!(matches!(
        premise.get_nodes()[0],
        PremiseNode::Subpremise(_)
    ));

    if let PremiseNode::Subpremise(subpremise) = &premise.get_nodes()[0] {
        assert_eq!(subpremise.get_nodes().len(), 3);
        assert_eq!(
            subpremise.get_nodes()[0],
            PremiseNode::Proposition('m')
        );
        assert_eq!(
            subpremise.get_nodes()[1],
            PremiseNode::Operator(Operator::And)
        );
        assert_eq!(
            subpremise.get_nodes()[2],
            PremiseNode::Proposition('b')
        );
    }

    assert_eq!(
        premise.get_nodes()[1],
        PremiseNode::Operator(Operator::Implies)
    );

    assert_eq!(premise.get_nodes()[2], PremiseNode::Proposition('j'));
}

#[test]
fn premises_test_substitute() {
    let mut premise = Premise::parse_str("a ∧ b ∨ (c → d)").unwrap();

    let mut proposition_values = ValueMap::default();
    proposition_values.set_value('a', Some(true));
    proposition_values.set_value('b', None);
    proposition_values.set_value('c', Some(false));
    proposition_values.set_value('d', None);

    premise.substitute(&proposition_values);

    assert_eq!(premise.get_nodes().len(), 5);
    assert_eq!(premise.get_nodes()[0], PremiseNode::TruthValue(true));
    assert_eq!(
        premise.get_nodes()[1],
        PremiseNode::Operator(Operator::And)
    );
    assert_eq!(premise.get_nodes()[2], PremiseNode::Proposition('b'));
    assert_eq!(
        premise.get_nodes()[3],
        PremiseNode::Operator(Operator::Or)
    );
    assert!(matches!(
        premise.get_nodes()[4],
        PremiseNode::Subpremise(_)
    ));

    if let PremiseNode::Subpremise(subpremise) = &premise.get_nodes()[4] {
        assert_eq!(subpremise.get_nodes().len(), 3);
        assert_eq!(
            subpremise.get_nodes()[0],
            PremiseNode::TruthValue(false)
        );
        assert_eq!(
            subpremise.get_nodes()[1],
            PremiseNode::Operator(Operator::Implies)
        );
        assert_eq!(
            subpremise.get_nodes()[2],
            PremiseNode::Proposition('d')
        );
    }
}

#[test]
fn premise_negation_is_a_node_of_its_own() {
    let premise = Premise::parse_str("!a & ¬(b)").unwrap();
    let expected = Premise::new(vec![
        PremiseNode::Negation,
        PremiseNode::Proposition('a'),
        PremiseNode::Operator(Operator::And),
        PremiseNode::Negation,
        PremiseNode::Subpremise(Premise::new(vec![PremiseNode::Proposition('b')])),
    ]);
    assert_eq!(premise, expected);
}

#[test]
fn premise_equal_for_ascii_and_glyph_spelling() {
    assert_eq!(
        Premise::parse_str("(m & b) > j").unwrap(),
        Premise::parse_str("(m ∧ b) → j").unwrap()
    );
    assert_eq!(
        Premise::parse_str("f > !t").unwrap(),
        Premise::parse_str("f → ¬t").unwrap()
    );
}

#[test]
fn premise_from_expression_says_the_same() {
    for text in ["", "a", "!a", "(m & b) > j", "a | (b & (c > !d))"] {
        let expression = Expression::parse_str(text).unwrap();
        let premise = Premise::from_expression(&expression);
        assert_eq!(premise, Premise::parse_str(text).unwrap());
        assert_eq!(premise.to_string(), expression.to_string());
    }
}

#[test]
fn premise_root_propositions() {
    assert_eq!(
        Premise::parse_str("f").unwrap().get_value_if_root_proposition(),
        Some(('f', true))
    );
    assert_eq!(
        Premise::parse_str("¬t").unwrap().get_value_if_root_proposition(),
        Some(('t', false))
    );
    assert_eq!(
        Premise::parse_str("!t").unwrap().get_value_if_root_proposition(),
        Some(('t', false))
    );
    assert_eq!(
        Premise::new(vec![PremiseNode::TruthValue(true)]).get_value_if_root_proposition(),
        None
    );
    assert_eq!(
        Premise::new(vec![PremiseNode::Negation, PremiseNode::TruthValue(true)])
            .get_value_if_root_proposition(),
        None
    );
    assert_eq!(
        Premise::new(vec![PremiseNode::Operator(Operator::Or), PremiseNode::Proposition('t')])
            .get_value_if_root_proposition(),
        None
    );
    assert_eq!(
        Premise::new(vec![PremiseNode::Proposition('s'), PremiseNode::Proposition('t')])
            .get_value_if_root_proposition(),
        None
    );
    for text in ["", "a & b", "!!a", "(a)", "!(a)", "a b c", "! a b"] {
        assert_eq!(
            Premise::parse_str(text).unwrap().get_value_if_root_proposition(),
            None
        );
    }
}

#[test]
fn premise_node_kinds() {
    assert_eq!(PremiseNode::Proposition('p').is_proposition(), Some('p'));
    assert_eq!(PremiseNode::TruthValue(true).is_proposition(), None);
    assert_eq!(PremiseNode::Negation.is_proposition(), None);
    assert_eq!(
        PremiseNode::Operator(Operator::Implies).is_operator(),
        Some(Operator::Implies)
    );
    assert_eq!(PremiseNode::Negation.is_operator(), None);
    assert_eq!(PremiseNode::Proposition('p').is_operator(), None);
    assert!(PremiseNode::Negation.is_negation());
    assert!(!PremiseNode::Operator(Operator::And).is_negation());
    assert!(!PremiseNode::Subpremise(Premise::new(vec![])).is_negation());
}

#[test]
fn premise_to_string_is_canonical() {
    assert_eq!(
        Premise::parse_str("a & b | (c > d)").unwrap().to_string(),
        "a ∧ b ∨ (c → d)"
    );
    assert_eq!(Premise::parse_str("f>!t").unwrap().to_string(), "f → ¬t");
    assert_eq!(Premise::parse_str("!!(!a)").unwrap().to_string(), "¬¬(¬a)");
    assert_eq!(Premise::parse_str("").unwrap().to_string(), "");
    assert_eq!(PremiseNode::Negation.to_string(), "¬");
    assert_eq!(PremiseNode::TruthValue(false).to_string(), "false");
    assert_eq!(PremiseNode::Operator(Operator::And).to_string(), "∧");
    assert_eq!(Operator::Or.to_string(), "∨");
    assert_eq!(Operator::Implies.glyph(), '→');

    let mut text = String::from("=> ");
    Premise::parse_str("b > t").unwrap().write_to(&mut text);
    assert_eq!(text, "=> b → t");
}

#[test]
fn premise_substitute_then_render() {
    let mut premise = Premise::parse_str("(f | s) > !m").unwrap();
    let mut values = ValueMap::default();
    values.set_value('f', Some(true));
    values.set_value('s', None);
    values.set_value('m', Some(false));
    premise.substitute(&values);
    assert_eq!(premise.to_string(), "(true ∨ s) → ¬false");
    assert_eq!(premise.get_nodes().len(), 4);
}

#[test]
fn premise_clone_is_independent() {
    let original = Premise::parse_str("a & (b | c)").unwrap();
    let mut copy = original.clone();
    assert_eq!(copy, original);
    let mut values = ValueMap::default();
    values.set_value('a', Some(true));
    values.set_value('b', Some(true));
    values.set_value('c', Some(false));
    copy.substitute(&values);
    assert_eq!(original.to_string(), "a ∧ (b ∨ c)");
    assert_eq!(copy.to_string(), "true ∧ (true ∨ false)");
}

#[test]
fn operator_apply_truth_tables() {
    assert!(Operator::And.apply(true, true));
    assert!(!Operator::And.apply(true, false));
    assert!(!Operator::And.apply(false, true));
    assert!(!Operator::And.apply(false, false));
    assert!(Operator::Or.apply(true, false));
    assert!(Operator::Or.apply(false, true));
    assert!(!Operator::Or.apply(false, false));
    assert!(Operator::Implies.apply(true, true));
    assert!(!Operator::Implies.apply(true, false));
    assert!(Operator::Implies.apply(false, true));
    assert!(Operator::Implies.apply(false, false));
}

fn resolved(text: &str, known: &[(char, bool)]) -> Premise {
    let mut premise = Premise::parse_str(text).unwrap();
    let mut values = ValueMap::from_premise_stack(&vec![Premise::parse_str(text).unwrap()]);
    for (id, value) in known {
        values.set_value(*id, Some(*value));
    }
    premise.substitute(&values);
    premise
}

#[test]
fn premise_evaluate_reads_left_to_right() {
    let known = [('t', true), ('f', false)];
    assert_eq!(resolved("t", &known).evaluate(), Some(true));
    assert_eq!(resolved("!t", &known).evaluate(), Some(false));
    assert_eq!(resolved("!!t", &known).evaluate(), Some(true));
    assert_eq!(resolved("t & f", &known).evaluate(), Some(false));
    assert_eq!(resolved("t & !f", &known).evaluate(), Some(true));
    assert_eq!(resolved("f > f", &known).evaluate(), Some(true));
    assert_eq!(resolved("t > f", &known).evaluate(), Some(false));
    // without precedence: (f ∧ f) ∨ t
    assert_eq!(resolved("f & f | t", &known).evaluate(), Some(true));
    // without precedence: (t ∨ t) ∧ f
    assert_eq!(resolved("t | t & f", &known).evaluate(), Some(false));
    // without precedence: (t → f) → f
    assert_eq!(resolved("t > f > f", &known).evaluate(), Some(true));
}

#[test]
fn premise_evaluate_has_no_value_for_other_shapes() {
    let known = [('t', true), ('f', false)];
    assert_eq!(resolved("", &known).evaluate(), None);
    assert_eq!(resolved("t f", &known).evaluate(), None);
    assert_eq!(resolved("& t", &known).evaluate(), None);
    assert_eq!(resolved("t &", &known).evaluate(), None);
    assert_eq!(resolved("t & & f", &known).evaluate(), None);
    assert_eq!(resolved("t !", &known).evaluate(), None);
    assert_eq!(resolved("t ! f", &known).evaluate(), None);
    assert_eq!(resolved("!", &known).evaluate(), None);
    assert_eq!(resolved("t & a", &known).evaluate(), None);
    assert_eq!(resolved("a", &known).evaluate(), None);
    assert_eq!(resolved("(t)", &known).evaluate(), None);
    assert_eq!(resolved("t & (f)", &known).evaluate(), None);
}

#[test]
fn premise_simplify_folds_constants() {
    let known = [('t', true), ('f', false)];

    let mut premise = resolved("t & t", &known);
    premise.simplify();
    assert_eq!(premise, Premise::new(vec![PremiseNode::TruthValue(true)]));

    let mut premise = resolved("(t & t) | f", &known);
    premise.simplify();
    assert_eq!(premise.to_string(), "true");

    let mut premise = resolved("!(t > (f | !t))", &known);
    premise.simplify();
    assert_eq!(premise.to_string(), "true");

    let mut premise = resolved("(t & f) > j", &known);
    premise.simplify();
    assert_eq!(premise.to_string(), "false → j");

    let mut premise = resolved("(t & j) > (f | f)", &known);
    premise.simplify();
    assert_eq!(premise.to_string(), "(true ∧ j) → false");

    let mut premise = resolved("a | (b & (t > f))", &known);
    premise.simplify();
    assert_eq!(premise.to_string(), "a ∨ (b ∧ false)");
}

#[test]
fn premise_simplify_leaves_the_rest() {
    let known = [('t', true), ('f', false)];
    for text in ["", "a", "!a", "a & b", "(a)", "t f", "t &", "()", "a > (b | c)"] {
        let mut premise = resolved(text, &known);
        let before = premise.to_string();
        premise.simplify();
        assert_eq!(premise.to_string(), before);
    }
    let mut premise = resolved("(t f) & t", &known);
    premise.simplify();
    assert_eq!(premise.to_string(), "(true false) ∧ true");
}

#[test]
fn premise_simplify_twice_is_simplify_once() {
    let known = [('t', true), ('f', false)];
    for text in ["t & t", "(t & f) > j", "a | (b & (t > f))", "((t))", "!(f) | a"] {
        let mut premise = resolved(text, &known);
        premise.simplify();
        let once = premise.to_string();
        premise.simplify();
        assert_eq!(premise.to_string(), once);
    }
}
