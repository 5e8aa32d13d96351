//! A shared game of arguing: statements linked by implication, proven by an
//! adjudicator, with proven-ness propagated up the graph.

pub mod adjudicator;
pub mod arena;
pub mod config;
pub mod graph;
pub mod messages;
pub mod messenger;
pub mod openai;
pub mod propagation;
pub mod registry;
pub mod seqs;
pub mod session;
