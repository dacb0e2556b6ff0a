//! A lexer and parser for the Aether scripting language, with verified contracts.
pub mod ast;
pub mod evaluator;
pub mod lexer;
pub mod parser;
pub mod security;
pub mod settings;
pub mod studio;
pub mod text;
