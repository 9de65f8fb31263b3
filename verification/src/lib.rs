//! The engine of a terminal that lives in a web page: a shell language with
//! structured-value pipes, the line editor, the renderer and the pane
//! multiplexer. Everything here is pure computation on plain values; the
//! program around it performs the input and output.

pub mod abort;
pub mod ask;
pub mod ast;
pub mod builtins;
pub mod callable;
pub mod chan;
pub mod convert;
pub mod diagnostics;
pub mod editor;
pub mod engine;
pub mod error;
pub mod eval;
pub mod execute;
pub mod expr;
pub mod float;
pub mod host;
pub mod laws;
pub mod lex;
pub mod matcher;
pub mod mux;
pub mod outbuf;
pub mod pane_run;
pub mod parse;
pub mod pipeline;
pub mod progress;
pub mod protocol;
pub mod redirect;
pub mod registry;
pub mod render;
pub mod script;
pub mod signature;
pub mod sink;
pub mod spelling;
pub mod stream;
pub mod tasks;
pub mod text;
pub mod value;
pub mod width;
