//! A directive-based markup language, evaluated into documentation pages.
//!
//! A page is a tree of literal text and groups ([`node`]). A group whose
//! first child is literal text is a call of a directive ([`directives`]) or
//! of a variable. The [`evaluator`] walks the tree of each page and gives
//! its body; [`model`] says, over mathematical values, what that body is,
//! and [`laws`] proves what follows from it. References between pages are
//! written as placeholders ([`placeholder`]) and replaced when every page
//! has been evaluated ([`project`]).

pub mod directives;
pub mod error;
pub mod evaluator;
pub mod laws;
pub mod markdown;
pub mod model;
pub mod node;
pub mod page;
pub mod pattern;
pub mod placeholder;
pub mod project;
pub mod strmap;
pub mod text;
pub mod toctree;
