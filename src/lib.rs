use vstd::prelude::*;

/// Terminal colors and the styled lines that report errors.
pub mod color;
/// Building strings and rendering integers.
pub mod text;
/// Tokens, literals and diagnostics.
pub mod token;
/// Source text to tokens.
pub mod scanner;
/// Expression and statement trees.
pub mod ast;
/// Tokens to statements, by recursive descent.
pub mod parser;
/// Runtime values.
pub mod value;
/// Variables in nested lexical scopes.
pub mod environment;
/// Evaluation of expressions and execution of statements.
pub mod interpreter;
/// Trees back to text.
pub mod printer;
/// The interactive prompt's rules.
pub mod prompt;

verus! {

} // verus!
