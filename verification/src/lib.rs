//! A parser for a small subset of HTML.
//!
//! The input is a string of elements with quoted attributes and text runs;
//! the output is a tree of [`dom::Node`] values. Every executable function
//! carries a contract over a mathematical model: a node is viewed as a
//! [`dom::Tree`], and the grammar is a set of total functions on sequences of
//! characters in [`grammar`].

pub mod chars;
pub mod dom;
pub mod grammar;
pub mod html;
pub mod laws;
