//! A self-describing grammar engine: a notation for declaring grammars
//! (rule alternatives, sequencing, optionality, repetition, alternation and
//! lexical atoms), a predictive recursive-descent evaluator that turns input
//! text into a syntax tree, and a bootstrap grammar whose language is the
//! grammar notation itself, so new grammars are built by parsing their
//! specification text and lowering the resulting tree.

pub mod ast;
pub mod bootstrap;
pub mod engine;
pub mod first;
pub mod lexer;
pub mod lower;
pub mod model;
pub mod pattern;

pub use ast::AST;
pub use bootstrap::get_parsing_grammar;
pub use lower::build_grammar;
pub use lower::parse_ast_grammar;
pub use lower::BuildError;
pub use lower::LowerError;
pub use engine::ParseError;
pub use lexer::Lexem;
pub use lexer::LexemIter;
pub use model::Atom;
pub use model::Grammar;
pub use model::ParseOptions;
pub use model::Rule;
pub use model::Symbol;
pub use model::SymbolType;
pub use pattern::Pattern;
