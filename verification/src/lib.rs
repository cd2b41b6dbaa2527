//! A propositional-logic deduction engine.
//!
//! Premises are formulas over propositions, negation, conjunction,
//! disjunction and implication. A deduction reads off what the premises
//! assert outright, substitutes it into every premise, and repeats until a
//! round learns nothing new.
pub mod canonical;
pub mod deductions;
pub mod expressions;
pub mod fixpoint;
pub mod folding;
pub mod formula;
pub mod history;
pub mod premises;
pub mod propositions;
pub mod rendering;
pub mod syntax;

pub use deductions::{Deduction, ValueMap};
pub use expressions::{Expression, ExpressionNode};
pub use fixpoint::Contradiction;
pub use history::EvaluationHistory;
pub use premises::{Premise, PremiseNode};
pub use propositions::Proposition;
pub use syntax::SyntaxError;
