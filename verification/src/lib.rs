//! A byte-level tokenizer and a two-token-lookahead parser for the head of an
//! HTTP/1.1 request, with every function proved against a mathematical model
//! of the grammar.

pub mod http_entity;
pub mod lexer;
pub mod parser;
pub mod theorems;
