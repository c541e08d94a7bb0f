pub mod span;
pub mod source_map;
pub mod text;
pub mod error;
pub mod types;
pub mod inference;
pub mod regex_ast;
pub mod nfa;
pub mod utils;
pub mod dfa;
pub mod token;
pub mod lexer;
pub mod ast;
pub mod base_detector;
pub mod assoc;
pub mod type_checker;
pub mod resolve;
pub mod resolve_laws;
pub mod inferred;
pub mod flatten;
pub mod scope;
pub mod visit;
pub mod visit_call;
pub mod visit_decl;
pub mod check;
pub mod mono;
pub mod printer;
pub mod printer_decl;
pub mod typing;
