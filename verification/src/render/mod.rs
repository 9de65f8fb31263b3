//! Render a `Value` to ANSI text. Called exactly once per pipeline —
//! commands never format their own output (`table` / `to json` exist to
//! force a string mid-pipe).
//!
//! Lines end with `\n`; the pane layer converts to `\r\n`.

pub mod stream;
pub mod table;

use crate::ask;
use crate::ask::{Query, QueryView, Replies, ReplySeq, Stop, StopView};
use crate::float;
use crate::float::Float;
use crate::text;
use crate::value;
use crate::value::{Fields, Value, ValueView};
use crate::width;
use vstd::prelude::*;

verus! {

broadcast use crate::value::value_view_cases;

/// A text or why there is none.
pub open spec fn text_result(r: Result<String, Stop>) -> Result<Seq<char>, StopView> {
    match r {
        Ok(s) => Ok(s@),
        Err(e) => Err(e@),
    }
}

/// Does a float keep a `.0`? Whole numbers do while they are small enough to
/// be read at a glance.
pub open spec fn keeps_point(f: Float) -> bool {
    float::whole(f) && f.spec_magnitude() < float::nearest_float(1_000_000_000_000_000).spec_magnitude()
}

/// The text of a float, whole numbers with a `.0`.
pub open spec fn float_text(f: Float, replies: ReplySeq) -> Result<Seq<char>, StopView> {
    match ask::text_answer(replies, QueryView::ShowFloat(f)) {
        Ok(t) => Ok(
            if keeps_point(f) {
                t + ".0"@
            } else {
                t
            },
        ),
        Err(e) => Err(e),
    }
}

pub open spec fn bool_text(b: bool) -> Seq<char> {
    if b {
        "true"@
    } else {
        "false"@
    }
}

/// Plain, uncolored, single-line display of a value.
pub open spec fn plain_text(v: ValueView, replies: ReplySeq) -> Result<Seq<char>, StopView> {
    match v {
        ValueView::Null => Ok(Seq::empty()),
        ValueView::Bool(b) => Ok(bool_text(b)),
        ValueView::Int(n) => Ok(text::decimal_text(n as int)),
        ValueView::Float(f) => float_text(f, replies),
        ValueView::Str(s) => Ok(s),
        ValueView::Bytes(b) => Ok("["@ + text::numeral(b.len()) + " bytes]"@),
        ValueView::List(items) => Ok("["@ + text::numeral(items.len()) + " items]"@),
        ValueView::Record(fields) => Ok("{"@ + text::numeral(fields.len()) + " fields}"@),
    }
}

pub fn show_bool(b: bool) -> (r: String)
    ensures
        r@ == bool_text(b),
{
    if b {
        "true".to_owned()
    } else {
        "false".to_owned()
    }
}

fn format_float(f: Float, replies: &Replies) -> (r: Result<String, Stop>)
    ensures
        text_result(r) == float_text(f, replies@),
{
    match ask::ask_text(replies, Query::ShowFloat(f)) {
        Ok(mut t) => {
            let limit = float::from_int(1_000_000_000_000_000);
            if f.is_whole() && f.magnitude() < limit.magnitude() {
                t.append(".0");
            }
            Ok(t)
        },
        Err(e) => Err(e),
    }
}

/// Plain, uncolored, single-line display of a value (cell contents,
/// interpolation, `to json`-lite for nested).
pub fn plain(value: &Value, replies: &Replies) -> (r: Result<String, Stop>)
    ensures
        text_result(r) == plain_text(value@, replies@),
{
    match value {
        Value::Null => Ok(String::new()),
        Value::Bool(b) => Ok(show_bool(*b)),
        Value::Int(n) => Ok(text::int_text(*n)),
        Value::Float(f) => format_float(*f, replies),
        Value::Str(s) => Ok(s.clone()),
        Value::Bytes(b) => {
            let mut out = "[".to_owned();
            text::push_number(&mut out, b.len() as u64);
            out.append(" bytes]");
            Ok(out)
        },
        Value::List(items) => {
            let mut out = "[".to_owned();
            text::push_number(&mut out, items.len() as u64);
            out.append(" items]");
            Ok(out)
        },
        Value::Record(fields) => {
            let mut out = "{".to_owned();
            text::push_number(&mut out, fields.len() as u64);
            out.append(" fields}");
            Ok(out)
        },
    }
}

/// The final character of a CSI sequence.
pub open spec fn csi_final(c: char) -> bool {
    '\x40' <= c <= '\x7e'
}

/// Where the first final character from `j` on is, or the end of the text.
pub open spec fn csi_final_at(s: Seq<char>, j: int) -> int
    decreases s.len() - j,
{
    if 0 <= j < s.len() && !csi_final(s[j]) {
        csi_final_at(s, j + 1)
    } else {
        j
    }
}

/// Where the body of a string-type escape that continues at `j` ends: behind
/// BEL or the two characters of ST, or at the end of the text.
pub open spec fn string_end(s: Seq<char>, j: int) -> int
    decreases s.len() - j,
{
    if !(0 <= j < s.len()) {
        j
    } else if s[j] == '\x07' {
        j + 1
    } else if s[j] == '\x1b' {
        if j + 1 < s.len() {
            j + 2
        } else {
            j + 1
        }
    } else {
        string_end(s, j + 1)
    }
}

/// Introducers of string-type escapes: OSC, DCS, APC, PM, SOS.
pub open spec fn string_introducer(c: char) -> bool {
    c == ']' || c == 'P' || c == '_' || c == '^' || c == 'X'
}

/// Where the escape sequence at `i` ends: a CSI sequence behind its final
/// character, a string-type escape behind its terminator, any other behind
/// its second character; one that is not finished, at the end of the text.
pub open spec fn escape_end(s: Seq<char>, i: int) -> int {
    if i + 1 >= s.len() {
        i + 1
    } else if s[i + 1] == '[' {
        let f = csi_final_at(s, i + 2);
        if f < s.len() {
            f + 1
        } else {
            f
        }
    } else if string_introducer(s[i + 1]) {
        string_end(s, i + 2)
    } else {
        i + 2
    }
}

pub(crate) proof fn csi_final_at_bounds(s: Seq<char>, j: int)
    requires
        0 <= j <= s.len(),
    ensures
        j <= csi_final_at(s, j) <= s.len(),
        csi_final_at(s, j) < s.len() ==> csi_final(s[csi_final_at(s, j)]),
        forall|k: int| j <= k < csi_final_at(s, j) ==> !csi_final(#[trigger] s[k]),
    decreases s.len() - j,
{
    if j < s.len() && !csi_final(s[j]) {
        csi_final_at_bounds(s, j + 1);
    }
}

pub(crate) proof fn string_end_bounds(s: Seq<char>, j: int)
    requires
        0 <= j <= s.len(),
    ensures
        j <= string_end(s, j) <= s.len(),
    decreases s.len() - j,
{
    if j < s.len() && s[j] != '\x07' && s[j] != '\x1b' {
        string_end_bounds(s, j + 1);
    }
}

/// An escape sequence takes up something, and nothing past the end.
pub proof fn escape_end_bounds(s: Seq<char>, i: int)
    requires
        0 <= i < s.len(),
    ensures
        i < escape_end(s, i) <= s.len(),
{
    if i + 1 < s.len() {
        csi_final_at_bounds(s, i + 2);
        string_end_bounds(s, i + 2);
    }
}

/// How a single character shows where lines are kept, and where everything
/// goes on one line.
pub open spec fn shown_char(c: char, keep_lines: bool) -> Seq<char> {
    if c == '\n' || c == '\t' {
        seq![
            if keep_lines {
                c
            } else {
                ' '
            },
        ]
    } else if c == '\r' {
        if keep_lines {
            Seq::empty()
        } else {
            seq![' ']
        }
    } else if text::control(c) {
        Seq::empty()
    } else {
        seq![c]
    }
}

/// A text without its escape sequences and control characters, from `i` on.
pub open spec fn stripped_from(s: Seq<char>, i: int, keep_lines: bool) -> Seq<char>
    decreases s.len() - i,
{
    if !(0 <= i < s.len()) {
        Seq::empty()
    } else if s[i] == '\x1b' {
        proof {
            escape_end_bounds(s, i);
        }
        stripped_from(s, escape_end(s, i), keep_lines)
    } else {
        shown_char(s[i], keep_lines) + stripped_from(s, i + 1, keep_lines)
    }
}

/// A text without its escape sequences and control characters. Whole sequences
/// go, not just the `ESC`; `keep_lines` preserves `\n` and `\t`.
pub open spec fn stripped(s: Seq<char>, keep_lines: bool) -> Seq<char> {
    stripped_from(s, 0, keep_lines)
}

pub open spec fn params_only(s: Seq<char>, i: int, j: int) -> bool {
    forall|k: int| i <= k < j ==> text::digit(#[trigger] s[k]) || s[k] == ';'
}

/// May the CSI sequence at `i` stand in a raw write? `C` and `D` cannot leave
/// the line, `K` erases within it, and `m` is not spatial at all; parameters
/// are digits and semicolons.
pub open spec fn harmless_csi(s: Seq<char>, i: int) -> bool {
    &&& i + 1 < s.len()
    &&& s[i + 1] == '['
    &&& {
        let f = csi_final_at(s, i + 2);
        f < s.len() && (s[f] == 'C' || s[f] == 'D' || s[f] == 'K' || s[f] == 'm') && params_only(
            s,
            i + 2,
            f,
        )
    }
}

/// May the character stand in a raw write?
pub open spec fn raw_char(c: char) -> bool {
    c == '\r' || c == '\n' || c == '\t' || c == '\x08' || !text::control(c)
}

/// A raw write as it goes out, from `i` on.
pub open spec fn writable_from(s: Seq<char>, i: int) -> Seq<char>
    decreases s.len() - i,
{
    if !(0 <= i < s.len()) {
        Seq::empty()
    } else if s[i] == '\x1b' {
        proof {
            escape_end_bounds(s, i);
        }
        let end = escape_end(s, i);
        let rest = writable_from(s, end);
        if harmless_csi(s, i) {
            s.subrange(i, end) + rest
        } else {
            rest
        }
    } else if raw_char(s[i]) {
        seq![s[i]] + writable_from(s, i + 1)
    } else {
        writable_from(s, i + 1)
    }
}

/// A raw write as it goes out: the harmless sequences stay.
pub open spec fn writable(s: Seq<char>) -> Seq<char> {
    writable_from(s, 0)
}

fn find_csi_final(chars: &Vec<char>, j: usize) -> (r: usize)
    requires
        j <= chars@.len(),
    ensures
        r == csi_final_at(chars@, j as int),
        j <= r <= chars@.len(),
{
    let mut k: usize = j;
    while k < chars.len() && !('\x40' <= chars[k] && chars[k] <= '\x7e')
        invariant
            j <= k <= chars@.len(),
            csi_final_at(chars@, j as int) == csi_final_at(chars@, k as int),
        decreases chars@.len() - k,
    {
        k = k + 1;
    }
    k
}

fn find_string_end(chars: &Vec<char>, j: usize) -> (r: usize)
    requires
        j <= chars@.len(),
    ensures
        r == string_end(chars@, j as int),
        j <= r <= chars@.len(),
{
    let n: usize = chars.len();
    let mut k: usize = j;
    while k < n
        invariant
            n == chars@.len(),
            j <= k <= n,
            string_end(chars@, j as int) == string_end(chars@, k as int),
        decreases n - k,
    {
        if chars[k] == '\x07' {
            return k + 1;
        }
        if chars[k] == '\x1b' {
            return if k + 1 < n {
                k + 2
            } else {
                k + 1
            };
        }
        k = k + 1;
    }
    k
}

/// Where the escape sequence at `i` ends.
fn find_escape_end(chars: &Vec<char>, i: usize) -> (r: usize)
    requires
        i < chars@.len(),
    ensures
        r == escape_end(chars@, i as int),
        i < r <= chars@.len(),
{
    let n: usize = chars.len();
    if i + 1 >= n {
        return i + 1;
    }
    let c = chars[i + 1];
    if c == '[' {
        let f: usize = find_csi_final(chars, i + 2);
        if f < n {
            f + 1
        } else {
            f
        }
    } else if c == ']' || c == 'P' || c == '_' || c == '^' || c == 'X' {
        find_string_end(chars, i + 2)
    } else {
        i + 2
    }
}

/// Strip escape sequences and control characters from user-supplied text, so
/// a value carrying page content can't move the cursor, clear the screen, or
/// set the window title.
///
/// Whole sequences go, not just the `ESC` byte: dropping the escape alone
/// leaves its body behind as visible litter (`[1m`) *and* still lets a
/// hostile string fake formatting. `keep_lines` preserves `\n`/`\t` for
/// scalar display; table cells flatten them to spaces so column widths stay
/// truthful.
fn strip_escapes(s: &str, keep_lines: bool) -> (r: String)
    ensures
        r@ == stripped(s@, keep_lines),
{
    let chars = text::to_chars(s);
    let ghost goal = stripped(s@, keep_lines);
    let mut out = String::new();
    let mut i: usize = 0;
    proof {
        assert(out@ + goal =~= goal);
    }
    while i < chars.len()
        invariant
            i <= chars@.len(),
            chars@ == s@,
            out@ + stripped_from(s@, i as int, keep_lines) == goal,
        decreases chars@.len() - i,
    {
        let c = chars[i];
        let ghost before = out@;
        if c == '\x1b' {
            i = find_escape_end(&chars, i);
        } else {
            if c == '\n' || c == '\t' {
                out.push(if keep_lines { c } else { ' ' });
            } else if c == '\r' {
                if !keep_lines {
                    out.push(' ');
                }
            } else if !text::is_control(c) {
                out.push(c);
            }
            proof {
                assert(out@ =~= before + shown_char(c, keep_lines));
                let rest = stripped_from(s@, i + 1, keep_lines);
                assert(before + (shown_char(c, keep_lines) + rest) =~= out@ + rest);
            }
            i = i + 1;
        }
    }
    proof {
        assert(out@ + Seq::<char>::empty() =~= out@);
    }
    out
}

/// Display text for an untrusted scalar string.
pub fn sanitize(s: &str) -> (r: String)
    ensures
        r@ == stripped(s@, true),
{
    strip_escapes(s, true)
}

/// Single-line, escape-free cell/key text for tables and records.
pub fn cell_text(s: &str) -> (r: String)
    ensures
        r@ == stripped(s@, false),
{
    strip_escapes(s, false)
}

/// Display text for an untrusted diagnostic line (`ctx.log` / `ctx.err`).
///
/// Unicode bidi/formatting characters (e.g. U+202E RIGHT-TO-LEFT OVERRIDE)
/// are deliberately left in place: they are no control characters, and
/// stripping them would corrupt legitimate Arabic/Hebrew text, which is
/// a worse failure than the Trojan-Source-style visual reordering a hostile
/// string could otherwise cause here.
///
/// Single-line and escape-free: a command's diagnostic is page-controlled
/// text, so it must not be able to move the cursor, clear the screen, or
/// inject colour codes into the styling the sink applies around it.
pub fn diagnostic_text(s: &str) -> (r: String)
    ensures
        r@ == stripped(s@, false),
{
    cell_text(s)
}

fn is_params_only(chars: &Vec<char>, i: usize, j: usize) -> (r: bool)
    requires
        i <= j <= chars@.len(),
    ensures
        r == params_only(chars@, i as int, j as int),
{
    let mut k: usize = i;
    while k < j
        invariant
            i <= k <= j <= chars@.len(),
            params_only(chars@, i as int, k as int),
        decreases j - k,
    {
        if !(text::is_digit(chars[k]) || chars[k] == ';') {
            return false;
        }
        k = k + 1;
    }
    true
}

fn is_harmless_csi(chars: &Vec<char>, i: usize) -> (r: bool)
    requires
        i < chars@.len(),
    ensures
        r == harmless_csi(chars@, i as int),
{
    let n: usize = chars.len();
    if i + 1 >= n || chars[i + 1] != '[' {
        return false;
    }
    let f: usize = find_csi_final(chars, i + 2);
    f < n && (chars[f] == 'C' || chars[f] == 'D' || chars[f] == 'K' || chars[f] == 'm')
        && is_params_only(chars, i + 2, f)
}

/// Display text for a command's *raw* write (`ctx.log.write`), which is
/// allowed a narrow set of control sequences that `diagnostic_text` strips.
///
/// The rule that makes this safe: **no permitted sequence moves the cursor
/// upward or to an absolute position.** `\n` *is* permitted, so a raw write
/// is not confined to one line — a command can open new lines below itself.
/// What it cannot do is climb back: nothing here moves up, positions the
/// cursor absolutely, clears the screen, reads the cursor back (that injects
/// into the input stream), or touches OSC. So a hostile command can only
/// garble lines it opened itself, which it can already do with plain text;
/// output written before it — the prompt, an earlier command — is out of
/// reach.
///
/// SGR is permitted because it cannot move anything. Its containment comes
/// from the pane resetting the style in front of *every* record, not from any
/// reset at the command boundary.
pub fn writer_text(s: &str) -> (r: String)
    ensures
        r@ == writable(s@),
{
    let chars = text::to_chars(s);
    let ghost goal = writable(s@);
    let mut out = String::new();
    let mut i: usize = 0;
    proof {
        assert(out@ + goal =~= goal);
    }
    while i < chars.len()
        invariant
            i <= chars@.len(),
            chars@ == s@,
            out@ + writable_from(s@, i as int) == goal,
        decreases chars@.len() - i,
    {
        let c = chars[i];
        let ghost before = out@;
        if c == '\x1b' {
            let end: usize = find_escape_end(&chars, i);
            if is_harmless_csi(&chars, i) {
                let seq = text::slice_text(&chars, i, end);
                out.append(seq.as_str());
                proof {
                    let rest = writable_from(s@, end as int);
                    assert(before + (s@.subrange(i as int, end as int) + rest) =~= out@ + rest);
                }
            }
            i = end;
        } else {
            if c == '\r' || c == '\n' || c == '\t' || c == '\x08' || !text::is_control(c) {
                out.push(c);
                proof {
                    let rest = writable_from(s@, i + 1);
                    assert(before + (seq![c] + rest) =~= out@ + rest);
                }
            }
            i = i + 1;
        }
    }
    proof {
        assert(out@ + Seq::<char>::empty() =~= out@);
    }
    out
}

/// Does a text hold no control character other than the line breaks and tabs
/// that were to be kept?
pub open spec fn clean(t: Seq<char>, keep_lines: bool) -> bool {
    forall|k: int|
        0 <= k < t.len() ==> !text::control(#[trigger] t[k]) || (keep_lines && (t[k] == '\n'
            || t[k] == '\t'))
}

proof fn stripped_from_is_clean(s: Seq<char>, i: int, keep_lines: bool)
    ensures
        clean(stripped_from(s, i, keep_lines), keep_lines),
    decreases s.len() - i,
{
    if 0 <= i < s.len() {
        if s[i] == '\x1b' {
            escape_end_bounds(s, i);
            stripped_from_is_clean(s, escape_end(s, i), keep_lines);
        } else {
            stripped_from_is_clean(s, i + 1, keep_lines);
            let head = shown_char(s[i], keep_lines);
            let rest = stripped_from(s, i + 1, keep_lines);
            assert(clean(head, keep_lines));
            assert(clean(head + rest, keep_lines)) by {
                assert forall|k: int| 0 <= k < (head + rest).len() implies !text::control(
                    #[trigger] (head + rest)[k],
                ) || (keep_lines && ((head + rest)[k] == '\n' || (head + rest)[k] == '\t')) by {
                    if k < head.len() {
                        assert((head + rest)[k] == head[k]);
                    } else {
                        assert((head + rest)[k] == rest[k - head.len()]);
                    }
                }
            }
        }
    }
}

/// What is stripped holds no control character — and so no escape sequence —
/// other than the line breaks and tabs that were to be kept.
pub proof fn stripped_text_is_clean(s: Seq<char>, keep_lines: bool)
    ensures
        clean(stripped(s, keep_lines), keep_lines),
{
    stripped_from_is_clean(s, 0, keep_lines);
}

proof fn clean_text_is_unchanged(s: Seq<char>, i: int, keep_lines: bool)
    requires
        0 <= i <= s.len(),
        forall|k: int| 0 <= k < s.len() ==> !text::control(#[trigger] s[k]),
    ensures
        stripped_from(s, i, keep_lines) == s.skip(i),
    decreases s.len() - i,
{
    if i < s.len() {
        assert(!text::control(s[i]));
        clean_text_is_unchanged(s, i + 1, keep_lines);
        assert(seq![s[i]] + s.skip(i + 1) =~= s.skip(i));
    } else {
        assert(s.skip(i) =~= Seq::empty());
    }
}

/// Stripping a text to one line a second time changes nothing.
pub proof fn stripping_is_idempotent(s: Seq<char>)
    ensures
        stripped(stripped(s, false), false) == stripped(s, false),
{
    stripped_text_is_clean(s, false);
    let t = stripped(s, false);
    clean_text_is_unchanged(t, 0, false);
    assert(t.skip(0) =~= t);
}

/// Is a text, from `i` on, made of plain characters, CR, LF, tab, backspace,
/// and complete CSI sequences that stay on the line?
pub open spec fn stays_on_line(t: Seq<char>, i: int) -> bool
    decreases t.len() - i,
{
    if !(0 <= i < t.len()) {
        true
    } else if t[i] == '\x1b' {
        harmless_csi(t, i) && {
            let f = csi_final_at(t, i + 2);
            i < f + 1 && stays_on_line(t, f + 1)
        }
    } else {
        raw_char(t[i]) && stays_on_line(t, i + 1)
    }
}

pub(crate) proof fn csi_final_at_shift(x: Seq<char>, y: Seq<char>, j: int)
    requires
        0 <= j,
    ensures
        csi_final_at(x + y, x.len() + j) == x.len() + csi_final_at(y, j),
    decreases y.len() - j,
{
    if j < y.len() {
        assert((x + y)[x.len() + j] == y[j]);
        csi_final_at_shift(x, y, j + 1);
    }
}

proof fn stays_on_line_shift(x: Seq<char>, y: Seq<char>, i: int)
    requires
        0 <= i,
        stays_on_line(y, i),
    ensures
        stays_on_line(x + y, x.len() + i),
    decreases y.len() - i,
{
    let t = x + y;
    if i < y.len() {
        assert(t[x.len() + i] == y[i]);
        if y[i] == '\x1b' {
            csi_final_at_bounds(y, i + 2);
            csi_final_at_shift(x, y, i + 2);
            let f = csi_final_at(y, i + 2);
            assert(t[x.len() + i + 1] == y[i + 1]);
            assert(t[x.len() + f] == y[f]);
            assert(params_only(t, x.len() + i + 2, x.len() + f)) by {
                assert forall|k: int| x.len() + i + 2 <= k < x.len() + f implies text::digit(
                    #[trigger] t[k],
                ) || t[k] == ';' by {
                    assert(t[k] == y[k - x.len()]);
                }
            }
            stays_on_line_shift(x, y, f + 1);
        } else {
            stays_on_line_shift(x, y, i + 1);
        }
    }
}

pub(crate) proof fn csi_final_is(t: Seq<char>, j: int, f: int)
    requires
        0 <= j <= f < t.len(),
        csi_final(t[f]),
        forall|k: int| j <= k < f ==> !csi_final(#[trigger] t[k]),
    ensures
        csi_final_at(t, j) == f,
    decreases f - j,
{
    if j < f {
        csi_final_is(t, j + 1, f);
    }
}

proof fn writable_stays_on_line(s: Seq<char>, i: int)
    ensures
        stays_on_line(writable_from(s, i), 0),
    decreases s.len() - i,
{
    if 0 <= i < s.len() {
        if s[i] == '\x1b' {
            escape_end_bounds(s, i);
            let end = escape_end(s, i);
            let rest = writable_from(s, end);
            writable_stays_on_line(s, end);
            if harmless_csi(s, i) {
                csi_final_at_bounds(s, i + 2);
                let f = csi_final_at(s, i + 2);
                let head = s.subrange(i, end);
                let t = head + rest;
                stays_on_line_shift(head, rest, 0);
                assert(t[0] == '\x1b');
                assert(t[1] == '[');
                assert(t[f - i] == s[f]);
                assert forall|k: int| 2 <= k < f - i implies !csi_final(#[trigger] t[k]) by {
                    assert(t[k] == s[i + k]);
                }
                csi_final_is(t, 2, f - i);
                assert(params_only(t, 2, f - i)) by {
                    assert forall|k: int| 2 <= k < f - i implies text::digit(#[trigger] t[k])
                        || t[k] == ';' by {
                        assert(t[k] == s[i + k]);
                    }
                }
                assert(harmless_csi(t, 0));
                assert(stays_on_line(t, 0));
            }
        } else if raw_char(s[i]) {
            writable_stays_on_line(s, i + 1);
            let rest = writable_from(s, i + 1);
            stays_on_line_shift(seq![s[i]], rest, 0);
            assert((seq![s[i]] + rest)[0] == s[i]);
        } else {
            writable_stays_on_line(s, i + 1);
        }
    }
}

/// Whatever a command writes raw, nothing that goes out moves the cursor
/// upward or to an absolute position, clears the screen, reads the cursor
/// back or opens a string escape: apart from plain text there are only CR,
/// LF, tab, backspace, and finished `C`, `D`, `K` and `m` sequences.
pub proof fn raw_writes_cannot_climb(s: Seq<char>)
    ensures
        stays_on_line(writable(s), 0),
{
    writable_stays_on_line(s, 0);
}

/// A value on its own, colored; a string without its escapes.
pub open spec fn colored(v: ValueView, replies: ReplySeq) -> Result<Seq<char>, StopView> {
    match v {
        ValueView::Null => Ok("\x1b[2mnull\x1b[0m"@),
        ValueView::Bool(b) => Ok("\x1b[33m"@ + bool_text(b) + "\x1b[0m"@),
        ValueView::Int(n) => Ok("\x1b[36m"@ + text::decimal_text(n as int) + "\x1b[0m"@),
        ValueView::Float(f) => match float_text(f, replies) {
            Ok(t) => Ok("\x1b[36m"@ + t + "\x1b[0m"@),
            Err(e) => Err(e),
        },
        ValueView::Str(s) => Ok(stripped(s, true)),
        _ => plain_text(v, replies),
    }
}

/// A text padded with spaces on the left to a number of characters.
pub open spec fn right_aligned(s: Seq<char>, n: nat) -> Seq<char> {
    if s.len() < n {
        text::repeated(' ', (n - s.len()) as nat) + s
    } else {
        s
    }
}

/// The lines of a list from item `i` on, each with its index.
pub open spec fn list_lines(
    items: Seq<ValueView>,
    i: int,
    idx_width: nat,
    replies: ReplySeq,
) -> Result<Seq<char>, StopView>
    decreases items.len() - i,
{
    if !(0 <= i < items.len()) {
        Ok(Seq::empty())
    } else {
        match colored(items[i], replies) {
            Err(e) => Err(e),
            Ok(t) => table::prefixed(
                "\x1b[2m"@ + right_aligned(text::numeral(i as nat), idx_width) + "\x1b[0m  "@ + t
                    + "\n"@,
                list_lines(items, i + 1, idx_width, replies),
            ),
        }
    }
}

/// A list, one line per item.
pub open spec fn list_text(items: Seq<ValueView>, replies: ReplySeq) -> Result<
    Seq<char>,
    StopView,
> {
    if items.len() == 0 {
        Ok("\x1b[2m(empty list)\x1b[0m\n"@)
    } else {
        list_lines(items, 0, text::numeral((items.len() - 1) as nat).len(), replies)
    }
}

/// Width of the widest name among the first `n` fields.
pub open spec fn name_width(fields: Seq<(Seq<char>, ValueView)>, n: nat) -> usize
    decreases n,
{
    if n == 0 {
        0
    } else {
        table::max2(
            name_width(fields, (n - 1) as nat),
            width::text_columns(stripped(fields[n - 1].0, false)),
        )
    }
}

/// The lines of a record from field `i` on.
pub open spec fn record_lines(
    fields: Seq<(Seq<char>, ValueView)>,
    i: int,
    w: usize,
    replies: ReplySeq,
) -> Result<Seq<char>, StopView>
    decreases fields.len() - i,
{
    if !(0 <= i < fields.len()) {
        Ok(Seq::empty())
    } else {
        match colored(fields[i].1, replies) {
            Err(e) => Err(e),
            Ok(t) => {
                let k = stripped(fields[i].0, false);
                table::prefixed(
                    "\x1b[32m"@ + k + "\x1b[0m"@ + table::padding(w, k) + "  "@ + t + "\n"@,
                    record_lines(fields, i + 1, w, replies),
                )
            },
        }
    }
}

/// A record, one line per field.
pub open spec fn record_text(fields: Seq<(Seq<char>, ValueView)>, replies: ReplySeq) -> Result<
    Seq<char>,
    StopView,
> {
    if fields.len() == 0 {
        Ok("\x1b[2m(empty record)\x1b[0m\n"@)
    } else {
        record_lines(fields, 0, name_width(fields, fields.len()), replies)
    }
}

/// A value as it shows at the end of a pipeline.
pub open spec fn rendered(v: ValueView, width: u16, replies: ReplySeq) -> Result<
    Seq<char>,
    StopView,
> {
    match v {
        ValueView::List(items) => if value::table(v) && items.len() > 0 {
            table::table_text(items, width, replies)
        } else {
            list_text(items, replies)
        },
        ValueView::Record(fields) => record_text(fields, replies),
        _ => match colored(v, replies) {
            Ok(t) => Ok(t + "\n"@),
            Err(e) => Err(e),
        },
    }
}

fn colored_scalar(v: &Value, replies: &Replies) -> (r: Result<String, Stop>)
    ensures
        text_result(r) == colored(v@, replies@),
{
    match v {
        Value::Null => Ok("\x1b[2mnull\x1b[0m".to_owned()),
        Value::Bool(b) => Ok(text::around("\x1b[33m", show_bool(*b).as_str(), "\x1b[0m")),
        Value::Int(n) => Ok(text::around("\x1b[36m", text::int_text(*n).as_str(), "\x1b[0m")),
        Value::Float(f) => match format_float(*f, replies) {
            Ok(t) => Ok(text::around("\x1b[36m", t.as_str(), "\x1b[0m")),
            Err(e) => Err(e),
        },
        Value::Str(s) => Ok(sanitize(s.as_str())),
        _ => plain(v, replies),
    }
}

fn push_right_aligned(out: &mut String, s: &str, n: usize)
    ensures
        final(out)@ == old(out)@ + right_aligned(s@, n as nat),
{
    let len: usize = s.unicode_len();
    if len < n {
        let pad = text::repeat_char(' ', n - len);
        out.append(pad.as_str());
        out.append(s);
        proof {
            assert(out@ =~= old(out)@ + right_aligned(s@, n as nat));
        }
    } else {
        out.append(s);
    }
}

fn render_list(items: &Vec<Value>, replies: &Replies) -> (r: Result<String, Stop>)
    ensures
        text_result(r) == list_text(value::values_view(items@), replies@),
{
    let ghost all = value::values_view(items@);
    if items.len() == 0 {
        return Ok("\x1b[2m(empty list)\x1b[0m\n".to_owned());
    }
    let last = text::number_text((items.len() - 1) as u64);
    let idx_width: usize = last.as_str().unicode_len();
    let ghost goal = list_lines(all, 0, idx_width as nat, replies@);
    let mut out = String::new();
    let mut i: usize = 0;
    proof {
        match goal {
            Ok(t) => {
                assert(out@ + t =~= t);
            },
            Err(_) => {},
        }
    }
    while i < items.len()
        invariant
            i <= items@.len(),
            all == value::values_view(items@),
            all.len() > 0,
            goal == list_text(all, replies@),
            goal == table::prefixed(
                out@,
                list_lines(all, i as int, idx_width as nat, replies@),
            ),
        decreases items@.len() - i,
    {
        proof {
            assert(all[i as int] == items@[i as int]@);
        }
        let ghost before = out@;
        let t = match colored_scalar(&items[i], replies) {
            Ok(t) => t,
            Err(e) => {
                return Err(e);
            },
        };
        let number = text::number_text(i as u64);
        let mut line = "\x1b[2m".to_owned();
        push_right_aligned(&mut line, number.as_str(), idx_width);
        line.append("\x1b[0m  ");
        line.append(t.as_str());
        line.append("\n");
        out.append(line.as_str());
        proof {
            match list_lines(all, i + 1, idx_width as nat, replies@) {
                Ok(rest) => {
                    assert(before + (line@ + rest) =~= out@ + rest);
                },
                Err(_) => {},
            }
        }
        i = i + 1;
    }
    proof {
        assert(out@ + Seq::<char>::empty() =~= out@);
    }
    Ok(out)
}

fn render_record(fields: &Fields, replies: &Replies) -> (r: Result<String, Stop>)
    ensures
        text_result(r) == record_text(fields@, replies@),
{
    if fields.len() == 0 {
        return Ok("\x1b[2m(empty record)\x1b[0m\n".to_owned());
    }
    let mut w: usize = 0;
    let mut k: usize = 0;
    while k < fields.len()
        invariant
            k <= fields@.len(),
            w == name_width(fields@, k as nat),
        decreases fields@.len() - k,
    {
        let name = cell_text(fields.name(k).as_str());
        let one: usize = width::text_width(name.as_str());
        if one > w {
            w = one;
        }
        k = k + 1;
    }
    let ghost goal = record_lines(fields@, 0, w, replies@);
    let mut out = String::new();
    let mut i: usize = 0;
    proof {
        match goal {
            Ok(t) => {
                assert(out@ + t =~= t);
            },
            Err(_) => {},
        }
    }
    while i < fields.len()
        invariant
            i <= fields@.len(),
            fields@.len() > 0,
            goal == record_text(fields@, replies@),
            goal == table::prefixed(out@, record_lines(fields@, i as int, w, replies@)),
        decreases fields@.len() - i,
    {
        let ghost before = out@;
        let t = match colored_scalar(fields.at(i), replies) {
            Ok(t) => t,
            Err(e) => {
                return Err(e);
            },
        };
        let name = cell_text(fields.name(i).as_str());
        let mut line = "\x1b[32m".to_owned();
        line.append(name.as_str());
        line.append("\x1b[0m");
        table::push_padding(&mut line, w, name.as_str());
        line.append("  ");
        line.append(t.as_str());
        line.append("\n");
        out.append(line.as_str());
        proof {
            match record_lines(fields@, i + 1, w, replies@) {
                Ok(rest) => {
                    assert(before + (line@ + rest) =~= out@ + rest);
                },
                Err(_) => {},
            }
        }
        i = i + 1;
    }
    proof {
        assert(out@ + Seq::<char>::empty() =~= out@);
    }
    Ok(out)
}

/// Render a value as it shows at the end of a pipeline.
pub fn render(v: &Value, width: u16, replies: &Replies) -> (r: Result<String, Stop>)
    ensures
        text_result(r) == rendered(v@, width, replies@),
{
    match v {
        Value::List(items) => {
            if items.len() > 0 && v.is_table() {
                table::render_table(items, width, replies)
            } else {
                render_list(items, replies)
            }
        },
        Value::Record(fields) => render_record(fields, replies),
        _ => match colored_scalar(v, replies) {
            Ok(t) => {
                let mut out = t;
                out.append("\n");
                Ok(out)
            },
            Err(e) => Err(e),
        },
    }
}

} // verus!
