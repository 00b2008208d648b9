//! A proof-search engine for classical propositional logic.
//!
//! Given a finite set of premises and a target proposition, the engine
//! explores nested hypothetical subproofs (conditional proof / case
//! assumption, Fitch style) driven by a catalog of one-step inference
//! rules, a deductive-closure operator, and a breadth-first search over
//! hypothesis-stack configurations bounded by a nesting depth.

pub mod candidates;
pub mod closure;
pub mod facts;
pub mod node;
pub mod prop;
pub mod rules;
pub mod search;
pub mod semantics;
pub mod universe;
