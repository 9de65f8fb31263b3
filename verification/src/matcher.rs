//! Pattern matching for `grep`, injected by the host.
//!
//! The core can't reach a regex engine directly — and we deliberately don't
//! compile one in (the `regex` crate would dwarf the rest of the binary).
//! Instead the host supplies the matcher: the browser injects one backed by
//! JavaScript's native `RegExp` — full regex for zero added bytes, since the
//! engine is already there — while native hosts (the CLI, tests) fall back to
//! substring matching.
//!
//! Consequence worth knowing: `grep 'a|b'` is alternation in the browser and
//! a literal `a|b` in the CLI. The CLI is a dev harness, so patterns that
//! work there always work in the browser, never the reverse.

use crate::text;
use vstd::prelude::*;

verus! {

/// A compiled pattern.
pub trait Pattern {
    /// The texts that the pattern accepts.
    spec fn accepts(&self, text: Seq<char>) -> bool;

    fn is_match(&self, text: &str) -> (r: bool)
        ensures
            r == self.accepts(text@),
    ;
}

/// Compiles patterns for `grep`.
pub trait PatternMatcher {
    /// Compile a pattern, or return a human-readable syntax error.
    fn compile(&self, pattern: &str, case_insensitive: bool) -> Result<Box<dyn Pattern>, String>;

    /// Shown in help and error messages: `regex` or `substring`.
    fn dialect(&self) -> &'static str;
}

/// Default matcher: plain substring containment.
pub struct SubstringMatcher;

pub struct SubstringPattern {
    /// Pre-lowercased when matching case-insensitively.
    needle: String,
    case_insensitive: bool,
}

impl SubstringPattern {
    pub closed spec fn needle(&self) -> Seq<char> {
        self.needle@
    }

    pub closed spec fn ignores_case(&self) -> bool {
        self.case_insensitive
    }
}

/// Does a text match a substring pattern? Ignoring case, both are compared in
/// lowercase.
pub open spec fn substring_matches(
    pattern: Seq<char>,
    case_insensitive: bool,
    s: Seq<char>,
) -> bool {
    if case_insensitive {
        text::contains(text::lowercased(s), text::lowercased(pattern))
    } else {
        text::contains(s, pattern)
    }
}

/// The empty pattern matches every text.
pub proof fn empty_pattern_matches_everything(s: Seq<char>)
    ensures
        substring_matches(Seq::empty(), false, s),
{
    assert(s.subrange(0, 0) =~= Seq::<char>::empty());
    assert(text::matches_at(s, 0, Seq::empty()));
}

impl Pattern for SubstringPattern {
    open spec fn accepts(&self, text: Seq<char>) -> bool {
        if self.ignores_case() {
            text::contains(text::lowercased(text), self.needle())
        } else {
            text::contains(text, self.needle())
        }
    }

    fn is_match(&self, text: &str) -> (r: bool) {
        if self.case_insensitive {
            let lower = text::to_lower(text);
            text::has_text(lower.as_str(), self.needle.as_str())
        } else {
            text::has_text(text, self.needle.as_str())
        }
    }
}

impl SubstringMatcher {
    /// The pattern that looks for a substring.
    pub fn substring(&self, pattern: &str, case_insensitive: bool) -> (r: SubstringPattern)
        ensures
            r.ignores_case() == case_insensitive,
            r.needle() == (if case_insensitive {
                text::lowercased(pattern@)
            } else {
                pattern@
            }),
    {
        SubstringPattern {
            needle: if case_insensitive { text::to_lower(pattern) } else { pattern.to_owned() },
            case_insensitive,
        }
    }
}

impl PatternMatcher for SubstringMatcher {
    fn compile(&self, pattern: &str, case_insensitive: bool) -> (r: Result<Box<dyn Pattern>, String>)
        ensures
            r matches Ok(p) && forall|s: Seq<char>|
                p.accepts(s) == substring_matches(pattern@, case_insensitive, s),
    {
        Ok(Box::new(self.substring(pattern, case_insensitive)))
    }

    fn dialect(&self) -> (r: &'static str)
        ensures
            r@ == "substring"@,
    {
        "substring"
    }
}

} // verus!
