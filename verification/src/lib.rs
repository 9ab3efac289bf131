use vstd::prelude::*;

pub mod text;
pub mod fat_string;
pub mod float;
pub mod val;
pub mod pattern;
pub mod ast;
pub mod lexer;
pub mod functions;
pub mod parser;
pub mod event;
pub mod debug_form;
pub mod methods;
pub mod semantics;
pub mod cached;
pub mod evaluate;
pub mod rule;
pub mod engine;
pub mod rule_set;

verus! {
} // verus!
