//! An embedded scripting runtime for tracking tabletop character sheets.
//!
//! Statements of a small dot-path language are parsed into actions and run
//! against one document store: a generation-checked, reference-counted arena
//! of values that is addressed by paths and by a stack of selected bases.

pub mod text;
pub mod error;
pub mod expr;
pub mod action;
pub mod proto;
pub mod tree;
pub mod ecs_ish;
pub mod value;
pub mod order;
pub mod scope;
pub mod paths;
pub mod frames;
pub mod folds;
pub mod semantics;
pub mod machine;
pub mod api_funcs;
pub mod token;
pub mod nomp;
pub mod print;
pub mod parse;
pub mod prev_iter;
