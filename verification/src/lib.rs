//! A line-oriented matcher for a small regular-expression dialect: literal
//! characters, escaped digit/alphanumeric classes, bracket character sets,
//! start/end anchors, and a greedy one-or-more quantifier. A pattern string is
//! compiled into a sequence of typed nodes, which an evaluator walks against a
//! line of text, trying every start offset.

pub mod classes;
pub mod laws;
pub mod matcher;
pub mod parser;
