//! Branching dialog scripts: a line parser, a script loader that assembles the
//! dialog graph, and the conversation engine that walks it.

pub mod chance;
pub mod dialog;
pub mod npc;
pub mod render;
pub mod replay;
pub mod script;
pub mod text;
pub mod well_formed;
