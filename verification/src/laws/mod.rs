//! What the parts of the shell promise to whoever uses them, stated over what
//! goes in and what comes out.

pub mod evaluation;
pub mod grammar;
pub mod closures;
pub mod commands;
pub mod editing;
pub mod panes;
pub mod display;
pub mod tables;
pub mod sorting;
pub mod streams;
pub mod notation;
pub mod binding;
pub mod lines;
pub mod suggestions;
pub mod buffers;
pub mod showing;
pub mod actions;
pub mod texts;
pub mod messages;
pub mod typed;
pub mod trees;
pub mod selectors;
pub mod pages;
pub mod hosts;
pub mod runs;
pub mod redirects;
