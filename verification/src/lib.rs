//! A context-aware keyboard remapping engine.
//!
//! The library models the core of an input remapper: a parser for dotted
//! key-combination tokens, an ordered rule model scoped by application,
//! the focus gate that decides whether remapping is active for the focused
//! application, and the event translator, a modifier-tracking state machine
//! that turns raw key events into the synthetic events a downstream consumer
//! should see.

pub mod config_parser;
pub mod focus;
pub mod rules;
pub mod translator;
