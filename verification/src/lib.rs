//! A verified counting engine in the manner of `wc`: the bytes, lines and
//! words of an input, and the policy that selects the counts and orders
//! them.
//!
//! The input is held as a whole, so that every pass sees the same content.
//! Bytes and lines are counted in any content; words are counted in text.

pub mod counting;
pub mod engine;
pub mod laws;
pub mod lines;
pub mod selection;
pub mod text;
pub mod whitespace;
pub mod words;
