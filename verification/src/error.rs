//! Spans, shell errors, and the caret diagnostic renderer.

use crate::text;
use crate::width;
use vstd::prelude::*;

verus! {

/// Byte range into the source line. Attached to every token, syntax node and
/// (optionally) error.
#[derive(Clone, Copy, Debug, PartialEq, Eq, Structural)]
pub struct Span {
    pub start: u32,
    pub end: u32,
}

/// The smallest span that covers both.
pub open spec fn merged(a: Span, b: Span) -> Span {
    Span {
        start: if a.start <= b.start { a.start } else { b.start },
        end: if a.end >= b.end { a.end } else { b.end },
    }
}

impl Span {
    pub fn new(start: u32, end: u32) -> (r: Self)
        ensures
            r == (Span { start, end }),
    {
        Span { start, end }
    }

    pub fn merge(self, other: Span) -> (r: Span)
        ensures
            r == merged(self, other),
    {
        Span {
            start: if self.start <= other.start { self.start } else { other.start },
            end: if self.end >= other.end { self.end } else { other.end },
        }
    }
}

/// Merging is commutative, associative and idempotent, and the result covers
/// both spans.
pub proof fn merge_is_a_join(a: Span, b: Span, c: Span)
    ensures
        merged(a, b) == merged(b, a),
        merged(merged(a, b), c) == merged(a, merged(b, c)),
        merged(a, a) == a,
        merged(a, b).start <= a.start && a.end <= merged(a, b).end,
{
}

#[derive(Clone, Copy, Debug, PartialEq, Eq, Structural)]
pub enum ErrorKind {
    Parse,
    UnknownCommand,
    Binding,
    Type,
    Runtime,
    Aborted,
}

#[derive(Debug, PartialEq, Eq)]
pub struct ShellError {
    pub kind: ErrorKind,
    pub msg: String,
    pub span: Option<Span>,
    pub help: Option<String>,
}

/// What a `ShellError` says.
pub struct ErrorView {
    pub kind: ErrorKind,
    pub msg: Seq<char>,
    pub span: Option<Span>,
    pub help: Option<Seq<char>>,
}

/// The characters of an optional string.
pub open spec fn opt_text(s: Option<String>) -> Option<Seq<char>> {
    match s {
        Some(t) => Some(t@),
        None => None,
    }
}

impl View for ShellError {
    type V = ErrorView;

    open spec fn view(&self) -> ErrorView {
        ErrorView { kind: self.kind, msg: self.msg@, span: self.span, help: opt_text(self.help) }
    }
}

impl Clone for ShellError {
    fn clone(&self) -> (r: Self)
        ensures
            r@ == self@,
    {
        ShellError {
            kind: self.kind,
            msg: self.msg.clone(),
            span: self.span,
            help: match &self.help {
                Some(h) => Some(h.clone()),
                None => None,
            },
        }
    }
}

impl ErrorView {
    /// An error without a place or advice.
    pub open spec fn bare(kind: ErrorKind, msg: Seq<char>) -> ErrorView {
        ErrorView { kind, msg, span: None, help: None }
    }

    /// An error at a place.
    pub open spec fn at(kind: ErrorKind, msg: Seq<char>, span: Span) -> ErrorView {
        ErrorView { kind, msg, span: Some(span), help: None }
    }

    /// The same error with advice.
    pub open spec fn helped(self, help: Seq<char>) -> ErrorView {
        ErrorView { help: Some(help), ..self }
    }

    /// The same error at a place.
    pub open spec fn placed(self, span: Span) -> ErrorView {
        ErrorView { span: Some(span), ..self }
    }
}

/// The part of a source line before the span, and the part it covers. Byte
/// positions past the end of the line stand for its end.
pub open spec fn span_prefix(source: Seq<char>, span: Span) -> Seq<char> {
    source.take(text::floor_index(source, span.start as int))
}

pub open spec fn spanned_text(source: Seq<char>, span: Span) -> Seq<char> {
    let i = text::floor_index(source, span.start as int);
    let j = text::floor_index(source, span.end as int);
    if i <= j {
        source.subrange(i, j)
    } else {
        Seq::empty()
    }
}

/// Does a byte position fall between two characters of the line, or past its
/// end?
pub open spec fn on_boundary(source: Seq<char>, b: int) -> bool {
    b >= text::byte_len(source) || text::byte_offset(source, text::floor_index(source, b)) == b
}

/// Can the error be drawn against this line? An end of its span inside a
/// character has no column.
pub open spec fn drawable(e: ErrorView, source: Seq<char>) -> bool {
    e.span matches Some(span) ==> on_boundary(source, span.start as int) && on_boundary(
        source,
        span.end as int,
    )
}

/// The diagnostic for an error against its source line.
pub open spec fn rendered(e: ErrorView, source: Seq<char>) -> Seq<char> {
    let head = "\x1b[1;31merror:\x1b[0m "@ + e.msg + "\n"@;
    let body = match e.span {
        Some(span) => {
            let carets = width::text_columns(spanned_text(source, span));
            head + "  \x1b[2m❯\x1b[0m "@ + source + "\n"@ + "    "@ + text::repeated(
                ' ',
                width::text_columns(span_prefix(source, span)) as nat,
            ) + "\x1b[31m"@ + text::repeated(
                '^',
                if carets >= 1 {
                    carets as nat
                } else {
                    1
                },
            ) + "\x1b[0m\n"@
        },
        None => head,
    };
    match e.help {
        Some(help) => body + "\x1b[2mhelp: "@ + help + "\x1b[0m\n"@,
        None => body,
    }
}

fn is_on_boundary(chars: &Vec<char>, b: usize) -> (r: bool)
    ensures
        r == on_boundary(chars@, b as int),
{
    let mut i: usize = 0;
    let mut left: usize = b;
    while i < chars.len()
        invariant
            i <= chars@.len(),
            text::byte_offset(chars@, i as int) + left == b,
        decreases chars@.len() - i,
    {
        let w: usize = text::utf8_width(chars[i]);
        proof {
            text::byte_offset_step(chars@, i as int);
        }
        if w > left {
            proof {
                text::floor_index_is(chars@, b as int, i as int);
                text::byte_offset_end(chars@);
                text::byte_offset_monotone(chars@, i + 1, chars@.len() as int);
            }
            return left == 0;
        }
        left = left - w;
        i = i + 1;
    }
    proof {
        text::byte_offset_end(chars@);
    }
    true
}

impl ShellError {
    pub fn new(kind: ErrorKind, msg: &str) -> (r: Self)
        ensures
            r@ == ErrorView::bare(kind, msg@),
    {
        ShellError { kind, msg: msg.to_owned(), span: None, help: None }
    }

    pub fn parse(msg: &str, span: Span) -> (r: Self)
        ensures
            r@ == ErrorView::at(ErrorKind::Parse, msg@, span),
    {
        ShellError::new(ErrorKind::Parse, msg).with_span(span)
    }

    pub fn runtime(msg: &str) -> (r: Self)
        ensures
            r@ == ErrorView::bare(ErrorKind::Runtime, msg@),
    {
        ShellError::new(ErrorKind::Runtime, msg)
    }

    pub fn type_error(msg: &str) -> (r: Self)
        ensures
            r@ == ErrorView::bare(ErrorKind::Type, msg@),
    {
        ShellError::new(ErrorKind::Type, msg)
    }

    pub fn with_span(self, span: Span) -> (r: Self)
        ensures
            r@ == self@.placed(span),
    {
        ShellError { kind: self.kind, msg: self.msg, span: Some(span), help: self.help }
    }

    pub fn with_help(self, help: &str) -> (r: Self)
        ensures
            r@ == self@.helped(help@),
    {
        ShellError { kind: self.kind, msg: self.msg, span: self.span, help: Some(help.to_owned()) }
    }

    /// Whether `render` has a place for the carets in this line.
    pub fn is_drawable(&self, source: &str) -> (r: bool)
        ensures
            r == drawable(self@, source@),
    {
        match self.span {
            Some(span) => {
                let chars = text::to_chars(source);
                is_on_boundary(&chars, span.start as usize) && is_on_boundary(
                    &chars,
                    span.end as usize,
                )
            },
            None => true,
        }
    }

    /// Render the error against its source line, caret-style:
    ///
    /// ```text
    /// error: unknown flag `--dpth`
    ///   ❯ ls --dpth 2
    ///        ^^^^^^
    /// help: did you mean `--depth`?
    /// ```
    ///
    /// Uses ANSI colors (red label and carets, dim help). Lines end with `\n`.
    pub fn render(&self, source: &str) -> (r: String)
        requires
            drawable(self@, source@),
        ensures
            r@ == rendered(self@, source@),
    {
        let mut out = "\x1b[1;31merror:\x1b[0m ".to_owned();
        out.append(self.msg.as_str());
        out.append("\n");
        if let Some(span) = self.span {
            let chars = text::to_chars(source);
            let i: usize = text::index_of_byte(&chars, span.start as usize);
            let j: usize = text::index_of_byte(&chars, span.end as usize);
            let prefix = text::slice_text(&chars, 0, i);
            let covered = if i <= j { text::slice_text(&chars, i, j) } else { String::new() };
            proof {
                assert(source@.take(i as int) == source@.subrange(0, i as int));
            }
            let pad = text::repeat_char(' ', width::text_width(prefix.as_str()));
            let w: usize = width::text_width(covered.as_str());
            let carets = text::repeat_char('^', if w >= 1 { w } else { 1 });
            out.append("  \x1b[2m❯\x1b[0m ");
            out.append(source);
            out.append("\n");
            out.append("    ");
            out.append(pad.as_str());
            out.append("\x1b[31m");
            out.append(carets.as_str());
            out.append("\x1b[0m\n");
        }
        if let Some(help) = &self.help {
            out.append("\x1b[2mhelp: ");
            out.append(help.as_str());
            out.append("\x1b[0m\n");
        }
        out
    }
}

/// Edit distance: the fewest insertions, deletions and substitutions of one
/// character that turn `a` into `b`.
pub open spec fn distance(a: Seq<char>, b: Seq<char>) -> nat
    decreases a.len() + b.len(),
{
    if a.len() == 0 {
        b.len()
    } else if b.len() == 0 {
        a.len()
    } else {
        let delete = distance(a.drop_last(), b) + 1;
        let insert = distance(a, b.drop_last()) + 1;
        let replace = distance(a.drop_last(), b.drop_last()) + (if a.last() == b.last() {
            0nat
        } else {
            1nat
        });
        min2(min2(delete, insert), replace)
    }
}

pub open spec fn min2(x: nat, y: nat) -> nat {
    if x <= y {
        x
    } else {
        y
    }
}

/// The distance never exceeds the longer text.
pub proof fn distance_at_most_longer(a: Seq<char>, b: Seq<char>)
    ensures
        distance(a, b) <= a.len() || distance(a, b) <= b.len(),
    decreases a.len() + b.len(),
{
    if a.len() > 0 && b.len() > 0 {
        distance_at_most_longer(a.drop_last(), b.drop_last());
    }
}

/// The distance is zero exactly between equal texts.
pub proof fn distance_zero_iff_equal(a: Seq<char>, b: Seq<char>)
    ensures
        distance(a, b) == 0 <==> a == b,
    decreases a.len() + b.len(),
{
    if a.len() == 0 || b.len() == 0 {
        if a.len() == b.len() {
            assert(a == b);
        }
    } else {
        distance_zero_iff_equal(a.drop_last(), b.drop_last());
        if a.last() == b.last() && a.drop_last() == b.drop_last() {
            assert(a == a.drop_last().push(a.last()));
            assert(b == b.drop_last().push(b.last()));
        }
    }
}

/// The distance is the same in both directions.
pub proof fn distance_symmetric(a: Seq<char>, b: Seq<char>)
    ensures
        distance(a, b) == distance(b, a),
    decreases a.len() + b.len(),
{
    if a.len() > 0 && b.len() > 0 {
        distance_symmetric(a.drop_last(), b);
        distance_symmetric(a, b.drop_last());
        distance_symmetric(a.drop_last(), b.drop_last());
    }
}

fn min_usize(x: usize, y: usize) -> (r: usize)
    ensures
        r == min2(x as nat, y as nat),
{
    if x <= y {
        x
    } else {
        y
    }
}

/// Edit distance for "did you mean" suggestions.
pub fn levenshtein(a: &str, b: &str) -> (r: usize)
    ensures
        r == distance(a@, b@),
{
    let a = text::to_chars(a);
    let b = text::to_chars(b);
    let n: usize = b.len();
    // `row[j]` is the distance from the part of `a` read so far to the first
    // `j + 1` characters of `b`.
    let mut row: Vec<usize> = Vec::new();
    let mut k: usize = 0;
    while k < n
        invariant
            k <= n,
            n == b@.len(),
            row@.len() == k,
            forall|j: int| 0 <= j < k ==> row@[j] == distance(a@.take(0), b@.take(j + 1)),
        decreases n - k,
    {
        proof {
            assert(b@.take(k + 1).len() == k + 1);
        }
        row.push(k + 1);
        k = k + 1;
    }
    let mut i: usize = 0;
    while i < a.len()
        invariant
            i <= a@.len(),
            n == b@.len(),
            row@.len() == n,
            forall|j: int| 0 <= j < n ==> row@[j] == distance(a@.take(i as int), b@.take(j + 1)),
        decreases a@.len() - i,
    {
        let mut diag: usize = i;
        let mut left: usize = i + 1;
        let mut j: usize = 0;
        proof {
            assert(distance(a@.take(i as int), b@.take(0)) == i);
            assert(distance(a@.take(i + 1), b@.take(0)) == i + 1);
        }
        while j < n
            invariant
                j <= n,
                i < a@.len() <= usize::MAX,
                n == b@.len(),
                row@.len() == n,
                diag == distance(a@.take(i as int), b@.take(j as int)),
                left == distance(a@.take(i + 1), b@.take(j as int)),
                forall|l: int|
                    0 <= l < j ==> row@[l] == distance(a@.take(i + 1), b@.take(l + 1)),
                forall|l: int|
                    j <= l < n ==> row@[l] == distance(a@.take(i as int), b@.take(l + 1)),
            decreases n - j,
        {
            let up: usize = row[j];
            let cost: usize = if a[i] == b[j] { 0 } else { 1 };
            let best: usize = min_usize(
                min_usize(up.saturating_add(1), left.saturating_add(1)),
                diag.saturating_add(cost),
            );
            proof {
                let p = a@.take(i + 1);
                let q = b@.take(j + 1);
                assert(p.drop_last() == a@.take(i as int));
                assert(q.drop_last() == b@.take(j as int));
                assert(p.last() == a@[i as int]);
                assert(q.last() == b@[j as int]);
                distance_at_most_longer(p, q);
                assert(best == distance(p, q));
            }
            row.set(j, best);
            diag = up;
            left = best;
            j = j + 1;
        }
        i = i + 1;
    }
    proof {
        assert(a@.take(a@.len() as int) == a@);
        assert(b@.take(b@.len() as int) == b@);
    }
    if n == 0 {
        a.len()
    } else {
        row[n - 1]
    }
}

/// Is a candidate close enough to be worth suggesting?
pub open spec fn close_enough(target: Seq<char>, candidate: Seq<char>) -> bool {
    let limit = text::byte_len(candidate) / 3;
    distance(target, candidate) <= (if limit >= 2 {
        limit
    } else {
        2
    })
}

/// Index of the candidate to suggest: the closest of those that are close
/// enough, the earliest where several are equally close.
pub open spec fn best_candidate(target: Seq<char>, candidates: Seq<Seq<char>>) -> Option<int>
    decreases candidates.len(),
{
    if candidates.len() == 0 {
        None
    } else {
        let before = best_candidate(target, candidates.drop_last());
        let last = candidates.last();
        let better = match before {
            Some(i) => distance(target, last) < distance(target, candidates[i]),
            None => true,
        };
        if close_enough(target, last) && better {
            Some(candidates.len() - 1)
        } else {
            before
        }
    }
}

/// The suggestion itself.
pub open spec fn suggestion(target: Seq<char>, candidates: Seq<Seq<char>>) -> Option<Seq<char>> {
    match best_candidate(target, candidates) {
        Some(i) => Some(candidates[i]),
        None => None,
    }
}

/// A suggestion is close enough, none of the other candidates that are close
/// enough is closer, and every earlier one is farther; there is none only
/// where nothing is close enough.
pub proof fn best_candidate_is_closest(target: Seq<char>, candidates: Seq<Seq<char>>)
    ensures
        match best_candidate(target, candidates) {
            Some(i) => {
                &&& 0 <= i < candidates.len()
                &&& close_enough(target, candidates[i])
                &&& forall|j: int|
                    0 <= j < candidates.len() && #[trigger] close_enough(target, candidates[j])
                        ==> distance(target, candidates[i]) <= distance(target, candidates[j])
                &&& forall|j: int|
                    0 <= j < i && #[trigger] close_enough(target, candidates[j]) ==> distance(
                        target,
                        candidates[i],
                    ) < distance(target, candidates[j])
            },
            None => forall|j: int|
                0 <= j < candidates.len() ==> !close_enough(target, #[trigger] candidates[j]),
        },
    decreases candidates.len(),
{
    if candidates.len() > 0 {
        let init = candidates.drop_last();
        best_candidate_is_closest(target, init);
        assert forall|j: int| 0 <= j < candidates.len() - 1 implies init[j] == candidates[j] by {}
        assert(candidates[candidates.len() - 1] == candidates.last());
    }
}

/// Best "did you mean" candidate: closest name within a sane edit distance.
pub fn did_you_mean(target: &str, candidates: &Vec<String>) -> (r: Option<String>)
    ensures
        opt_text(r) == suggestion(target@, text::texts(candidates@)),
{
    let ghost all = text::texts(candidates@);
    let mut best: Option<(usize, usize)> = None;
    let mut i: usize = 0;
    proof {
        assert(all.take(0).len() == 0);
    }
    while i < candidates.len()
        invariant
            i <= candidates@.len(),
            all == text::texts(candidates@),
            match best {
                Some((d, k)) => k < i && d == distance(target@, all[k as int]) && best_candidate(
                    target@,
                    all.take(i as int),
                ) == Some(k as int),
                None => best_candidate(target@, all.take(i as int)) is None,
            },
        decreases candidates@.len() - i,
    {
        let d: usize = levenshtein(target, candidates[i].as_str());
        let limit: usize = candidates[i].as_str().as_bytes().len() / 3;
        proof {
            text::byte_len_is_encoded_len(candidates@[i as int]@);
            assert(all.take(i + 1).drop_last() == all.take(i as int));
            assert(all.take(i + 1).last() == candidates@[i as int]@);
        }
        if d <= (if limit >= 2 { limit } else { 2 }) {
            let better = match best {
                Some((bd, _)) => d < bd,
                None => true,
            };
            if better {
                best = Some((d, i));
            }
        }
        i = i + 1;
    }
    proof {
        assert(all.take(all.len() as int) == all);
    }
    match best {
        Some((_, k)) => Some(candidates[k].clone()),
        None => None,
    }
}

} // verus!
