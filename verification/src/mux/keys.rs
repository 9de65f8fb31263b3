//! The prefix keymap: everything is a command. The page only knows the prefix
//! chord; after `Ctrl-B` it forwards the next key here, which resolves to a
//! shell command string evaluated in the active pane.

use crate::text;
use vstd::prelude::*;

verus! {

/// The command line that a key stands for.
pub open spec fn bound_to(key: Seq<char>) -> Option<Seq<char>> {
    if key == "%"@ {
        Some("mux split --right"@)
    } else if key == "\""@ {
        Some("mux split --down"@)
    } else if key == "c"@ {
        Some("mux window new"@)
    } else if key == "n"@ {
        Some("mux window next"@)
    } else if key == "p"@ {
        Some("mux window prev"@)
    } else if key == "x"@ {
        Some("mux kill-pane"@)
    } else if key == "o"@ {
        Some("mux focus next"@)
    } else if key == "ArrowLeft"@ {
        Some("mux focus left"@)
    } else if key == "ArrowRight"@ {
        Some("mux focus right"@)
    } else if key == "ArrowUp"@ {
        Some("mux focus up"@)
    } else if key == "ArrowDown"@ {
        Some("mux focus down"@)
    } else if key == "z"@ {
        Some("mux zoom"@)
    } else if key == "s"@ {
        Some("session list"@)
    } else if key == "("@ {
        Some("session prev"@)
    } else if key == ")"@ {
        Some("session next"@)
    } else if key == "d"@ {
        Some("mux hide"@)
    } else {
        None
    }
}

/// Resolve a post-prefix key (browser `KeyboardEvent.key` values) to a
/// command line. `None` = unbound (disarm silently).
pub fn keymap(key: &str) -> (r: Option<&'static str>)
    ensures
        match r {
            Some(s) => bound_to(key@) == Some(s@),
            None => bound_to(key@) is None,
        },
{
    if text::same_text(key, "%") {
        Some("mux split --right")
    } else if text::same_text(key, "\"") {
        Some("mux split --down")
    } else if text::same_text(key, "c") {
        Some("mux window new")
    } else if text::same_text(key, "n") {
        Some("mux window next")
    } else if text::same_text(key, "p") {
        Some("mux window prev")
    } else if text::same_text(key, "x") {
        Some("mux kill-pane")
    } else if text::same_text(key, "o") {
        Some("mux focus next")
    } else if text::same_text(key, "ArrowLeft") {
        Some("mux focus left")
    } else if text::same_text(key, "ArrowRight") {
        Some("mux focus right")
    } else if text::same_text(key, "ArrowUp") {
        Some("mux focus up")
    } else if text::same_text(key, "ArrowDown") {
        Some("mux focus down")
    } else if text::same_text(key, "z") {
        Some("mux zoom")
    } else if text::same_text(key, "s") {
        Some("session list")
    } else if text::same_text(key, "(") {
        Some("session prev")
    } else if text::same_text(key, ")") {
        Some("session next")
    } else if text::same_text(key, "d") {
        Some("mux hide")
    } else {
        None
    }
}

} // verus!
