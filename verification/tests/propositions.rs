use deduction::{Proposition, ValueMap};

#[test]
fn proposition_keeps_its_text() {
    let proposition = Proposition::from_str("(m & b) > j");
    assert_eq!(proposition.get_string(), "(m & b) > j");
    assert_eq!(proposition.to_string(), "(m & b) > j");
    assert_eq!(Proposition::new().get_string(), "");
    assert_eq!(Proposition::from_str("f → ¬t").get_string(), "f → ¬t");
}

#[test]
fn proposition_substitute_writes_out_known_values() {
    let mut values = ValueMap::default();
    values.set_value('f', Some(true));
    values.set_value('t', Some(false));
    values.set_value('s', None);

    let mut proposition = Proposition::from_str("(f | s) > !t");
    proposition.substitute(&values);
    assert_eq!(proposition.get_string(), "(TRUE | s) > !FALSE");

    let mut proposition = Proposition::from_str("f → ¬t ∧ m");
    proposition.substitute(&values);
    assert_eq!(proposition.get_string(), "TRUE → ¬FALSE ∧ m");

    let mut proposition = Proposition::from_str("fft");
    proposition.substitute(&values);
    assert_eq!(proposition.get_string(), "TRUETRUEFALSE");
}

#[test]
fn proposition_substitute_leaves_the_rest() {
    let mut values = ValueMap::default();
    values.set_value('s', None);
    let mut proposition = Proposition::from_str("(f | s) > !t");
    proposition.substitute(&values);
    assert_eq!(proposition.get_string(), "(f | s) > !t");

    let mut empty = Proposition::from_str("");
    empty.substitute(&values);
    assert_eq!(empty.get_string(), "");
}

#[test]
fn proposition_substitute_does_not_read_what_it_wrote() {
    let mut values = ValueMap::default();
    values.set_value('a', Some(true));
    values.set_value('T', Some(false));
    values.set_value('E', Some(true));
    let mut proposition = Proposition::from_str("a & T");
    proposition.substitute(&values);
    assert_eq!(proposition.get_string(), "TRUE & FALSE");
}
