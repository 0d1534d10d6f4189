//! A cellular-automaton grid in which live cells fade away gradually
//! instead of dying at once, and whose border is reseeded every generation.

pub mod config;
pub mod coords;
pub mod rule;
pub mod engine;
