//! Per-pane line editor. Pure: `feed(input)` hands back its effects — no I/O,
//! no engine access. The caller writes `Effects::echo` to the terminal in the
//! same tick and spawns evaluation for each submitted line.

use crate::text;
use crate::width;
use vstd::prelude::*;

verus! {

pub const MAX_HISTORY: usize = 200;

/// What a `feed` call produced. `echo` goes to the terminal immediately;
/// each entry in `submitted` becomes its own evaluation task; `ctrl_c` asks
/// the engine to abort the pane's running pipeline (if any).
#[derive(Debug, PartialEq, Eq)]
pub struct Effects {
    pub echo: String,
    pub submitted: Vec<String>,
    pub ctrl_c: bool,
}

pub struct LineEditor {
    buffer: Vec<char>,
    cursor: usize,
    history: Vec<String>,
    /// Some(i) while navigating history; the in-progress line is stashed.
    hist_idx: Option<usize>,
    stashed: Vec<char>,
    /// Carry-over for an escape sequence split across input chunks.
    pending: Vec<char>,
    in_paste: bool,
    paste_buf: Vec<char>,
    last_ok: bool,
}

#[verifier::ext_equal]
pub struct EffectsView {
    pub echo: Seq<char>,
    pub submitted: Seq<Seq<char>>,
    pub ctrl_c: bool,
}

#[verifier::ext_equal]
pub struct EditorView {
    pub buffer: Seq<char>,
    pub cursor: int,
    pub history: Seq<Seq<char>>,
    pub hist_idx: Option<int>,
    pub stashed: Seq<char>,
    pub pending: Seq<char>,
    pub in_paste: bool,
    pub paste_buf: Seq<char>,
    pub last_ok: bool,
}

impl View for Effects {
    type V = EffectsView;

    open spec fn view(&self) -> EffectsView {
        EffectsView {
            echo: self.echo@,
            submitted: text::texts(self.submitted@),
            ctrl_c: self.ctrl_c,
        }
    }
}

impl View for LineEditor {
    type V = EditorView;

    closed spec fn view(&self) -> EditorView {
        EditorView {
            buffer: self.buffer@,
            cursor: self.cursor as int,
            history: text::texts(self.history@),
            hist_idx: match self.hist_idx {
                Some(i) => Some(i as int),
                None => None,
            },
            stashed: self.stashed@,
            pending: self.pending@,
            in_paste: self.in_paste,
            paste_buf: self.paste_buf@,
            last_ok: self.last_ok,
        }
    }
}

/// Does a line hold nothing but whitespace?
pub open spec fn blank(line: Seq<char>) -> bool {
    forall|i: int| 0 <= i < line.len() ==> text::whitespace(#[trigger] line[i])
}

impl EditorView {
    /// The cursor is in the line, history navigation points at an entry, and
    /// the history holds at most 200 lines, none of them blank or equal to
    /// the one before it.
    pub open spec fn wf(self) -> bool {
        &&& 0 <= self.cursor <= self.buffer.len()
        &&& self.hist_idx matches Some(i) ==> 0 <= i < self.history.len()
        &&& history_ok(self.history)
        &&& self.pending.len() > 0 ==> self.pending.last() != '\r'
    }
}

pub open spec fn history_ok(history: Seq<Seq<char>>) -> bool {
    &&& history.len() <= MAX_HISTORY
    &&& forall|i: int| 0 <= i < history.len() ==> !blank(#[trigger] history[i])
    &&& forall|i: int, j: int|
        0 <= i && j == i + 1 && j < history.len() ==> #[trigger] history[i] != #[trigger] history[j]
}

pub open spec fn prompt_text(ok: bool) -> Seq<char> {
    if ok {
        "\x1b[32m❯\x1b[0m "@
    } else {
        "\x1b[31m❯\x1b[0m "@
    }
}

/// Columns that a character takes up on the line; a control character none.
pub open spec fn columns_of(c: char) -> usize {
    match width::char_columns(c) {
        Some(w) => w,
        None => 0,
    }
}

/// Columns that a run of characters takes up.
pub open spec fn columns(s: Seq<char>) -> usize
    decreases s.len(),
{
    if s.len() == 0 {
        0
    } else {
        columns(s.drop_last()).saturating_add(columns_of(s.last()))
    }
}

/// The whole input line redrawn: CR, clear, prompt, buffer, cursor.
pub open spec fn redrawn(ed: EditorView) -> Seq<char> {
    let line = "\r\x1b[K"@ + prompt_text(ed.last_ok) + ed.buffer;
    let tail = columns(ed.buffer.skip(ed.cursor));
    if tail > 0 {
        line + "\x1b["@ + text::numeral(tail as nat) + "D"@
    } else {
        line
    }
}

/// The effects with more to echo.
pub open spec fn echoing(fx: EffectsView, s: Seq<char>) -> EffectsView {
    EffectsView { echo: fx.echo + s, ..fx }
}

/// The effects with the line redrawn.
pub open spec fn redrawing(fx: EffectsView, ed: EditorView) -> EffectsView {
    echoing(fx, redrawn(ed))
}

/// The history after a line joins it: blank lines and repeats of the last one
/// do not count, and the oldest line leaves a full history.
pub open spec fn remembered(history: Seq<Seq<char>>, line: Seq<char>) -> Seq<Seq<char>> {
    if blank(line) || (history.len() > 0 && history.last() == line) {
        history
    } else if history.len() + 1 > MAX_HISTORY {
        history.push(line).skip(1)
    } else {
        history.push(line)
    }
}

/// Joining keeps the history in order.
pub proof fn remembering_keeps_history(history: Seq<Seq<char>>, line: Seq<char>)
    requires
        history_ok(history),
    ensures
        history_ok(remembered(history, line)),
        remembered(history, line).len() >= history.len(),
{
    let longer = history.push(line);
    if !(blank(line) || (history.len() > 0 && history.last() == line)) {
        assert forall|i: int| 0 <= i < longer.len() implies !blank(#[trigger] longer[i]) by {}
        assert forall|i: int, j: int|
            0 <= i && j == i + 1 && j < longer.len() implies #[trigger] longer[i]
            != #[trigger] longer[j] by {
            if j < history.len() {
                assert(history[i] != history[j]);
            } else {
                assert(history.last() == history[i]);
            }
        }
        let shorter = longer.skip(1);
        assert forall|i: int, j: int|
            0 <= i && j == i + 1 && j < shorter.len() implies #[trigger] shorter[i]
            != #[trigger] shorter[j] by {
            assert(shorter[i] == longer[i + 1]);
            assert(shorter[j] == longer[j + 1]);
        }
        assert forall|i: int| 0 <= i < shorter.len() implies !blank(#[trigger] shorter[i]) by {
            assert(shorter[i] == longer[i + 1]);
        }
    }
}

/// A line is submitted: it leaves the editor and joins the history.
pub open spec fn submitted(ed: EditorView, fx: EffectsView) -> (EditorView, EffectsView) {
    (
        EditorView {
            buffer: Seq::empty(),
            cursor: 0,
            hist_idx: None,
            history: remembered(ed.history, ed.buffer),
            ..ed
        },
        EffectsView {
            echo: fx.echo + "\r\n"@,
            submitted: fx.submitted.push(ed.buffer),
            ctrl_c: fx.ctrl_c,
        },
    )
}

/// A bracketed paste as it goes into the line, from a place on: line breaks
/// become single spaces and other control characters go.
pub open spec fn flattened(payload: Seq<char>, i: int) -> Seq<char>
    decreases payload.len() - i,
{
    if !(0 <= i < payload.len()) {
        Seq::empty()
    } else if payload[i] == '\r' && i + 1 < payload.len() && payload[i + 1] == '\n' {
        seq![' '] + flattened(payload, i + 2)
    } else if payload[i] == '\r' || payload[i] == '\n' {
        seq![' '] + flattened(payload, i + 1)
    } else if text::control(payload[i]) {
        flattened(payload, i + 1)
    } else {
        seq![payload[i]] + flattened(payload, i + 1)
    }
}

/// Text goes into the line at the cursor.
pub open spec fn with_inserted(ed: EditorView, s: Seq<char>) -> EditorView {
    EditorView {
        buffer: ed.buffer.take(ed.cursor) + s + ed.buffer.skip(ed.cursor),
        cursor: ed.cursor + s.len(),
        ..ed
    }
}

/// A paste is complete: it goes into the line, and nothing is submitted.
pub open spec fn pasted(ed: EditorView, payload: Seq<char>, fx: EffectsView) -> (
    EditorView,
    EffectsView,
) {
    let after = with_inserted(ed, flattened(payload, 0));
    (after, redrawing(fx, after))
}

#[derive(Clone, Copy, Debug, PartialEq, Eq, Structural)]
pub enum Escape {
    Up,
    Down,
    Left,
    Right,
    Home,
    End,
    Delete,
    PasteStart,
    Ignored,
}

/// What an escape sequence of the CSI kind stands for.
pub open spec fn csi_meaning(s: Seq<char>) -> Escape {
    if s == "\x1b[A"@ {
        Escape::Up
    } else if s == "\x1b[B"@ {
        Escape::Down
    } else if s == "\x1b[C"@ {
        Escape::Right
    } else if s == "\x1b[D"@ {
        Escape::Left
    } else if s == "\x1b[H"@ || s == "\x1b[1~"@ || s == "\x1b[7~"@ {
        Escape::Home
    } else if s == "\x1b[F"@ || s == "\x1b[4~"@ || s == "\x1b[8~"@ {
        Escape::End
    } else if s == "\x1b[3~"@ {
        Escape::Delete
    } else if s == "\x1b[200~"@ {
        Escape::PasteStart
    } else {
        Escape::Ignored
    }
}

/// The final character of a CSI sequence.
pub open spec fn csi_final(c: char) -> bool {
    '\x40' <= c <= '\x7e'
}

pub open spec fn csi_param(c: char) -> bool {
    text::digit(c) || c == ';' || c == '?'
}

/// The rest of a CSI sequence that starts at `i`, from `j` on: what it stands
/// for and where it ends; nothing where the input ends before it does. A
/// character that cannot stand in it ends it.
pub open spec fn csi_from(data: Seq<char>, i: int, j: int) -> Option<(Escape, int)>
    decreases data.len() - j,
{
    if !(0 <= j < data.len()) {
        None
    } else if csi_final(data[j]) {
        Some((csi_meaning(data.subrange(i, j + 1)), j + 1))
    } else if !csi_param(data[j]) {
        Some((Escape::Ignored, j + 1))
    } else {
        csi_from(data, i, j + 1)
    }
}

/// A sequence that has not ended holds parameters alone.
proof fn unfinished_csi_is(data: Seq<char>, i: int, j: int, k: int)
    requires
        0 <= j <= k < data.len(),
        csi_from(data, i, j) is None,
    ensures
        csi_param(data[k]),
    decreases data.len() - j,
{
    if j < k {
        unfinished_csi_is(data, i, j + 1, k);
    }
}

/// What is held of an escape sequence does not end in a carriage return.
proof fn held_escape_ends(data: Seq<char>, i: int)
    requires
        0 <= i < data.len(),
        data[i] == '\x1b',
        escape_at(data, i) is None,
    ensures
        data.skip(i).last() != '\r',
{
    let n = data.len() - 1;
    assert(data.skip(i).last() == data[n]);
    if n >= i + 2 {
        unfinished_csi_is(data, i, i + 2, n);
    }
}

/// The escape sequence that starts at `i`.
pub open spec fn escape_at(data: Seq<char>, i: int) -> Option<(Escape, int)> {
    if i + 1 >= data.len() {
        None
    } else if data[i + 1] != '[' {
        Some((Escape::Ignored, i + 2))
    } else {
        csi_from(data, i, i + 2)
    }
}

/// The line taken from the history.
pub open spec fn recalled(ed: EditorView, idx: int) -> EditorView {
    EditorView {
        hist_idx: Some(idx),
        buffer: ed.history[idx],
        cursor: ed.history[idx].len() as int,
        ..ed
    }
}

/// What an escape sequence does.
pub open spec fn escaped(ed: EditorView, e: Escape, fx: EffectsView) -> (EditorView, EffectsView) {
    match e {
        Escape::Up => if ed.history.len() == 0 {
            (ed, fx)
        } else {
            let after = match ed.hist_idx {
                None => recalled(
                    EditorView { stashed: ed.buffer, ..ed },
                    ed.history.len() - 1,
                ),
                Some(i) => recalled(
                    ed,
                    if i == 0 {
                        0
                    } else {
                        i - 1
                    },
                ),
            };
            (after, redrawing(fx, after))
        },
        Escape::Down => match ed.hist_idx {
            None => (ed, fx),
            Some(i) => {
                let after = if i + 1 < ed.history.len() {
                    recalled(ed, i + 1)
                } else {
                    EditorView {
                        hist_idx: None,
                        buffer: ed.stashed,
                        cursor: ed.stashed.len() as int,
                        stashed: Seq::empty(),
                        ..ed
                    }
                };
                (after, redrawing(fx, after))
            },
        },
        Escape::Left => if ed.cursor > 0 {
            let after = EditorView { cursor: ed.cursor - 1, ..ed };
            (after, redrawing(fx, after))
        } else {
            (ed, fx)
        },
        Escape::Right => if ed.cursor < ed.buffer.len() {
            let after = EditorView { cursor: ed.cursor + 1, ..ed };
            (after, redrawing(fx, after))
        } else {
            (ed, fx)
        },
        Escape::Home => {
            let after = EditorView { cursor: 0, ..ed };
            (after, redrawing(fx, after))
        },
        Escape::End => {
            let after = EditorView { cursor: ed.buffer.len() as int, ..ed };
            (after, redrawing(fx, after))
        },
        Escape::Delete => if ed.cursor < ed.buffer.len() {
            let after = EditorView { buffer: ed.buffer.remove(ed.cursor), ..ed };
            (after, redrawing(fx, after))
        } else {
            (ed, fx)
        },
        Escape::PasteStart => (
            EditorView { in_paste: true, paste_buf: Seq::empty(), ..ed },
            fx,
        ),
        Escape::Ignored => (ed, fx),
    }
}

/// Going back from the cursor over spaces, or over anything but spaces.
pub open spec fn back_over(line: Seq<char>, i: int, spaces: bool) -> int
    decreases i,
{
    if 0 < i <= line.len() && (line[i - 1] == ' ') == spaces {
        back_over(line, i - 1, spaces)
    } else {
        i
    }
}

/// Where the word before the cursor starts.
pub open spec fn word_start(ed: EditorView) -> int {
    back_over(ed.buffer, back_over(ed.buffer, ed.cursor, true), false)
}

/// What a single character does, other than a line break or an escape.
pub open spec fn typed(ed: EditorView, c: char, fx: EffectsView) -> (EditorView, EffectsView) {
    if c == '\x7f' || c == '\x08' {
        if ed.cursor > 0 {
            let after = EditorView {
                cursor: ed.cursor - 1,
                buffer: ed.buffer.remove(ed.cursor - 1),
                ..ed
            };
            (after, redrawing(fx, after))
        } else {
            (ed, fx)
        }
    } else if c == '\x03' {
        let after = EditorView { buffer: Seq::empty(), cursor: 0, hist_idx: None, ..ed };
        (
            after,
            EffectsView {
                echo: fx.echo + "^C\r\n"@ + redrawn(after),
                submitted: fx.submitted,
                ctrl_c: true,
            },
        )
    } else if c == '\x01' {
        let after = EditorView { cursor: 0, ..ed };
        (after, redrawing(fx, after))
    } else if c == '\x05' {
        let after = EditorView { cursor: ed.buffer.len() as int, ..ed };
        (after, redrawing(fx, after))
    } else if c == '\x15' {
        let after = EditorView { buffer: ed.buffer.skip(ed.cursor), cursor: 0, ..ed };
        (after, redrawing(fx, after))
    } else if c == '\x0b' {
        let after = EditorView { buffer: ed.buffer.take(ed.cursor), ..ed };
        (after, redrawing(fx, after))
    } else if c == '\x17' {
        let start = word_start(ed);
        let after = EditorView {
            buffer: ed.buffer.take(start) + ed.buffer.skip(ed.cursor),
            cursor: start,
            ..ed
        };
        (after, redrawing(fx, after))
    } else if c == '\x0c' {
        (ed, EffectsView { echo: fx.echo + "\x1b[2J\x1b[H"@ + redrawn(ed), ..fx })
    } else if !text::control(c) {
        let after = with_inserted(ed, seq![c]);
        if after.cursor == after.buffer.len() {
            (after, EffectsView { echo: fx.echo.push(c), ..fx })
        } else {
            (after, redrawing(fx, after))
        }
    } else {
        (ed, fx)
    }
}

/// The end marker of a bracketed paste.
pub open spec fn paste_end() -> Seq<char> {
    seq!['\x1b', '[', '2', '0', '1', '~']
}

pub open spec fn paste_ends_at(data: Seq<char>, j: int) -> bool {
    0 <= j && j + 6 <= data.len() && data.subrange(j, j + 6) == paste_end()
}

/// Where the first end marker from `i` on starts.
pub open spec fn find_paste_end(data: Seq<char>, i: int) -> Option<int>
    decreases data.len() - i,
{
    if !(0 <= i < data.len()) {
        None
    } else if paste_ends_at(data, i) {
        Some(i)
    } else {
        find_paste_end(data, i + 1)
    }
}

/// Length of the longest suffix, at most `k` characters long, that could be
/// the beginning of an end marker.
pub open spec fn partial_end(rest: Seq<char>, k: nat) -> nat
    decreases k,
{
    if k == 0 {
        0
    } else if k <= rest.len() && rest.skip(rest.len() - k) == paste_end().take(k as int) {
        k
    } else {
        partial_end(rest, (k - 1) as nat)
    }
}

/// Nor does what is held of the end marker of a paste.
proof fn held_marker_ends(rest: Seq<char>, k: nat)
    requires
        k <= 5,
    ensures
        partial_end(rest, k) <= k,
        partial_end(rest, k) > 0 ==> rest.skip(rest.len() - partial_end(rest, k)).last() != '\r',
    decreases k,
{
    reveal_strlit("\x1b[201~");
    if k > 0 {
        if k <= rest.len() && rest.skip(rest.len() - k) == paste_end().take(k as int) {
            assert(rest.skip(rest.len() - k).last() == paste_end()[k - 1]);
        } else {
            held_marker_ends(rest, (k - 1) as nat);
        }
    }
}

/// One step through the input at `i`: the editor, where to go on, the effects.
pub open spec fn feed_step(ed: EditorView, data: Seq<char>, i: int, fx: EffectsView) -> (
    EditorView,
    int,
    EffectsView,
) {
    if ed.in_paste {
        match find_paste_end(data, i) {
            Some(j) => {
                let payload = ed.paste_buf + data.subrange(i, j);
                let (after, more) = pasted(
                    EditorView { in_paste: false, paste_buf: Seq::empty(), ..ed },
                    payload,
                    fx,
                );
                (after, j + 6, more)
            },
            None => {
                let rest = data.skip(i);
                let keep = partial_end(rest, 5);
                (
                    EditorView {
                        paste_buf: ed.paste_buf + rest.take(rest.len() - keep),
                        pending: rest.skip(rest.len() - keep),
                        ..ed
                    },
                    data.len() as int,
                    fx,
                )
            },
        }
    } else if data[i] == '\x1b' {
        match escape_at(data, i) {
            None => (EditorView { pending: data.skip(i), ..ed }, data.len() as int, fx),
            Some((e, j)) => {
                let (after, more) = escaped(ed, e, fx);
                (after, j, more)
            },
        }
    } else if data[i] == '\r' || data[i] == '\n' {
        let (after, more) = submitted(ed, fx);
        let pair = data[i] == '\r' && i + 1 < data.len() && data[i + 1] == '\n';
        (
            after,
            if pair {
                i + 2
            } else {
                i + 1
            },
            more,
        )
    } else {
        let (after, more) = typed(ed, data[i], fx);
        (after, i + 1, more)
    }
}

/// The input from `i` on.
pub open spec fn feed_from(ed: EditorView, data: Seq<char>, i: int, fx: EffectsView) -> (
    EditorView,
    EffectsView,
)
    decreases data.len() - i,
{
    if !(0 <= i < data.len()) {
        (ed, fx)
    } else {
        let (after, j, more) = feed_step(ed, data, i, fx);
        if i < j <= data.len() {
            feed_from(after, data, j, more)
        } else {
            (after, more)
        }
    }
}

pub open spec fn no_effects() -> EffectsView {
    EffectsView { echo: Seq::empty(), submitted: Seq::empty(), ctrl_c: false }
}

/// A chunk of input goes through the editor, after what the last chunk left
/// unfinished.
pub open spec fn fed(ed: EditorView, input: Seq<char>) -> (EditorView, EffectsView) {
    feed_from(
        EditorView { pending: Seq::empty(), ..ed },
        ed.pending + input,
        0,
        no_effects(),
    )
}

impl Effects {
    pub fn none() -> (r: Self)
        ensures
            r@ == no_effects(),
    {
        let r = Effects { echo: String::new(), submitted: Vec::new(), ctrl_c: false };
        proof {
            assert(r@ =~= no_effects());
        }
        r
    }
}

impl Default for Effects {
    fn default() -> (r: Self)
        ensures
            r@ == no_effects(),
    {
        Effects::none()
    }
}

/// A copy of a run of characters.
fn clone_chars(v: &Vec<char>, i: usize, j: usize) -> (r: Vec<char>)
    requires
        i <= j <= v@.len(),
    ensures
        r@ == v@.subrange(i as int, j as int),
{
    let mut out: Vec<char> = Vec::new();
    let mut k: usize = i;
    while k < j
        invariant
            i <= k <= j <= v@.len(),
            out@ == v@.subrange(i as int, k as int),
        decreases j - k,
    {
        proof {
            assert(v@.subrange(i as int, k + 1) =~= v@.subrange(i as int, k as int).push(
                v@[k as int],
            ));
        }
        out.push(v[k]);
        k = k + 1;
    }
    out
}

fn is_blank(line: &str) -> (r: bool)
    ensures
        r == blank(line@),
{
    let chars = text::to_chars(line);
    let mut i: usize = 0;
    while i < chars.len()
        invariant
            i <= chars@.len(),
            chars@ == line@,
            forall|j: int| 0 <= j < i ==> text::whitespace(#[trigger] line@[j]),
        decreases chars@.len() - i,
    {
        if !text::is_whitespace(chars[i]) {
            proof {
                assert(!text::whitespace(line@[i as int]));
            }
            return false;
        }
        i = i + 1;
    }
    true
}

/// A bracketed paste as it goes into the line.
fn flatten_paste(payload: &Vec<char>) -> (r: Vec<char>)
    ensures
        r@ == flattened(payload@, 0),
{
    let ghost goal = flattened(payload@, 0);
    let mut out: Vec<char> = Vec::new();
    let mut i: usize = 0;
    proof {
        assert(out@ + goal =~= goal);
    }
    while i < payload.len()
        invariant
            i <= payload@.len(),
            goal == flattened(payload@, 0),
            out@ + flattened(payload@, i as int) == goal,
        decreases payload@.len() - i,
    {
        let c = payload[i];
        let ghost before = out@;
        let n: usize = payload.len();
        if c == '\r' && i + 1 < n && payload[i + 1] == '\n' {
            out.push(' ');
            proof {
                assert(before.push(' ') + flattened(payload@, i + 2) =~= before + (seq![' ']
                    + flattened(payload@, i + 2)));
            }
            i = i + 2;
        } else if c == '\r' || c == '\n' {
            out.push(' ');
            proof {
                assert(before.push(' ') + flattened(payload@, i + 1) =~= before + (seq![' ']
                    + flattened(payload@, i + 1)));
            }
            i = i + 1;
        } else {
            if !text::is_control(c) {
                out.push(c);
                proof {
                    assert(before.push(c) + flattened(payload@, i + 1) =~= before + (seq![c]
                        + flattened(payload@, i + 1)));
                }
            }
            i = i + 1;
        }
    }
    proof {
        assert(out@ + Seq::<char>::empty() =~= out@);
    }
    out
}

/// What a CSI sequence stands for.
fn meaning(seq: &str) -> (r: Escape)
    ensures
        r == csi_meaning(seq@),
{
    if text::same_text(seq, "\x1b[A") {
        Escape::Up
    } else if text::same_text(seq, "\x1b[B") {
        Escape::Down
    } else if text::same_text(seq, "\x1b[C") {
        Escape::Right
    } else if text::same_text(seq, "\x1b[D") {
        Escape::Left
    } else if text::same_text(seq, "\x1b[H") || text::same_text(seq, "\x1b[1~")
        || text::same_text(seq, "\x1b[7~") {
        Escape::Home
    } else if text::same_text(seq, "\x1b[F") || text::same_text(seq, "\x1b[4~")
        || text::same_text(seq, "\x1b[8~") {
        Escape::End
    } else if text::same_text(seq, "\x1b[3~") {
        Escape::Delete
    } else if text::same_text(seq, "\x1b[200~") {
        Escape::PasteStart
    } else {
        Escape::Ignored
    }
}

/// Parse the escape sequence at `i`; nothing where the chunk ends inside it.
fn parse_escape(data: &Vec<char>, i: usize) -> (r: Option<(Escape, usize)>)
    requires
        i < data@.len(),
    ensures
        match r {
            Some((e, j)) => escape_at(data@, i as int) == Some((e, j as int)) && i < j
                <= data@.len(),
            None => escape_at(data@, i as int) is None,
        },
{
    let n: usize = data.len();
    if i + 1 >= n {
        return None;
    }
    if data[i + 1] != '[' {
        return Some((Escape::Ignored, i + 2));
    }
    let mut j: usize = i + 2;
    while j < n
        invariant
            n == data@.len(),
            i + 2 <= j <= n,
            data@[i + 1] == '[',
            escape_at(data@, i as int) == csi_from(data@, i as int, j as int),
        decreases n - j,
    {
        let c = data[j];
        if '\x40' <= c && c <= '\x7e' {
            let seq = text::slice_text(data, i, j + 1);
            return Some((meaning(seq.as_str()), j + 1));
        }
        if !(text::is_digit(c) || c == ';' || c == '?') {
            return Some((Escape::Ignored, j + 1));
        }
        j = j + 1;
    }
    None
}

fn is_paste_end(data: &Vec<char>, j: usize) -> (r: bool)
    ensures
        r == paste_ends_at(data@, j as int),
{
    let n: usize = data.len();
    if n < 6 || j > n - 6 {
        return false;
    }
    let ghost part = data@.subrange(j as int, j + 6);
    let r = data[j] == '\x1b' && data[j + 1] == '[' && data[j + 2] == '2' && data[j + 3] == '0'
        && data[j + 4] == '1' && data[j + 5] == '~';
    proof {
        assert(part[0] == data@[j as int] && part[1] == data@[j + 1] && part[2] == data@[j + 2]
            && part[3] == data@[j + 3] && part[4] == data@[j + 4] && part[5] == data@[j + 5]);
        if r {
            assert(part =~= paste_end());
        } else {
            assert(paste_end()[0] == '\x1b' && paste_end()[1] == '[' && paste_end()[2] == '2'
                && paste_end()[3] == '0' && paste_end()[4] == '1' && paste_end()[5] == '~');
        }
    }
    r
}

fn locate_paste_end(data: &Vec<char>, i: usize) -> (r: Option<usize>)
    requires
        i <= data@.len(),
    ensures
        match r {
            Some(j) => find_paste_end(data@, i as int) == Some(j as int) && i <= j && j + 6
                <= data@.len(),
            None => find_paste_end(data@, i as int) is None,
        },
{
    let mut j: usize = i;
    while j < data.len()
        invariant
            i <= j <= data@.len(),
            find_paste_end(data@, i as int) == find_paste_end(data@, j as int),
        decreases data@.len() - j,
    {
        if is_paste_end(data, j) {
            return Some(j);
        }
        j = j + 1;
    }
    None
}

/// The end marker's character at an index.
fn paste_end_char(k: usize) -> (r: char)
    requires
        k < 6,
    ensures
        r == paste_end()[k as int],
{
    if k == 0 {
        '\x1b'
    } else if k == 1 {
        '['
    } else if k == 2 {
        '2'
    } else if k == 3 {
        '0'
    } else if k == 4 {
        '1'
    } else {
        '~'
    }
}

/// Does the input end with the first `k` characters of an end marker?
fn ends_with_partial(data: &Vec<char>, i: usize, k: usize) -> (r: bool)
    requires
        i <= data@.len(),
        k <= 5,
        k <= data@.len() - i,
    ensures
        r == (data@.skip(i as int).skip(data@.len() - i - k) == paste_end().take(k as int)),
{
    let start: usize = data.len() - k;
    let ghost rest = data@.skip(i as int);
    let ghost tail = rest.skip(rest.len() - k);
    let ghost want = paste_end().take(k as int);
    let mut m: usize = 0;
    while m < k
        invariant
            m <= k <= 5,
            start == data@.len() - k,
            data@.len() <= usize::MAX,
            i <= start,
            tail == data@.skip(i as int).skip(data@.len() - i - k),
            want == paste_end().take(k as int),
            forall|x: int| 0 <= x < m ==> #[trigger] tail[x] == want[x],
        decreases k - m,
    {
        proof {
            assert(tail[m as int] == data@[start + m]);
            assert(want[m as int] == paste_end()[m as int]);
        }
        if data[start + m] != paste_end_char(m) {
            return false;
        }
        m = m + 1;
    }
    proof {
        assert(tail =~= want);
    }
    true
}

/// Length of the longest suffix of the input from `i` on that is a proper
/// prefix of the end marker.
fn partial_suffix_len(data: &Vec<char>, i: usize) -> (r: usize)
    requires
        i <= data@.len(),
    ensures
        r == partial_end(data@.skip(i as int), 5),
        r <= data@.len() - i,
{
    let ghost rest = data@.skip(i as int);
    let mut k: usize = 5;
    while k > 0
        invariant
            k <= 5,
            i <= data@.len(),
            rest == data@.skip(i as int),
            partial_end(rest, 5) == partial_end(rest, k as nat),
        decreases k,
    {
        if k <= data.len() - i && ends_with_partial(data, i, k) {
            return k;
        }
        k = k - 1;
    }
    0
}

fn back(line: &Vec<char>, i: usize, spaces: bool) -> (r: usize)
    requires
        i <= line@.len(),
    ensures
        r == back_over(line@, i as int, spaces),
        r <= i,
{
    let mut k: usize = i;
    while k > 0 && (line[k - 1] == ' ') == spaces
        invariant
            k <= i <= line@.len(),
            back_over(line@, i as int, spaces) == back_over(line@, k as int, spaces),
        decreases k,
    {
        k = k - 1;
    }
    k
}

impl LineEditor {
    /// What holds of an editor at any time.
    pub open spec fn wf(&self) -> bool {
        self@.wf()
    }

    pub fn new() -> (r: Self)
        ensures
            r.wf(),
            r@ == (EditorView {
                buffer: Seq::empty(),
                cursor: 0,
                history: Seq::empty(),
                hist_idx: None,
                stashed: Seq::empty(),
                pending: Seq::empty(),
                in_paste: false,
                paste_buf: Seq::empty(),
                last_ok: true,
            }),
    {
        let r = LineEditor {
            buffer: Vec::new(),
            cursor: 0,
            history: Vec::new(),
            hist_idx: None,
            stashed: Vec::new(),
            pending: Vec::new(),
            in_paste: false,
            paste_buf: Vec::new(),
            last_ok: true,
        };
        proof {
            assert(text::texts(r.history@) =~= Seq::empty());
        }
        r
    }

    /// Color the prompt by the last command's status.
    pub fn set_last_status(&mut self, ok: bool)
        ensures
            final(self)@ == (EditorView { last_ok: ok, ..old(self)@ }),
            old(self).wf() ==> final(self).wf(),
    {
        self.last_ok = ok;
    }

    pub fn history(&self) -> (r: &Vec<String>)
        ensures
            text::texts(r@) == self@.history,
    {
        &self.history
    }

    pub fn prompt(&self) -> (r: String)
        ensures
            r@ == prompt_text(self@.last_ok),
    {
        if self.last_ok {
            "\x1b[32m❯\x1b[0m ".to_owned()
        } else {
            "\x1b[31m❯\x1b[0m ".to_owned()
        }
    }

    /// Redraw the whole input line: CR, clear, prompt, buffer, cursor.
    pub fn prompt_line(&self) -> (r: String)
        requires
            self.wf(),
        ensures
            r@ == redrawn(self@),
    {
        let mut out = "\r\x1b[K".to_owned();
        out.append(self.prompt().as_str());
        out.append(text::from_chars(&self.buffer).as_str());
        let ghost tail = self.buffer@.skip(self.cursor as int);
        let mut w: usize = 0;
        let mut k: usize = self.cursor;
        while k < self.buffer.len()
            invariant
                self.cursor <= k <= self.buffer@.len(),
                tail == self.buffer@.skip(self.cursor as int),
                w == columns(tail.take(k - self.cursor)),
            decreases self.buffer@.len() - k,
        {
            proof {
                let t = tail.take(k + 1 - self.cursor);
                assert(t.drop_last() =~= tail.take(k - self.cursor));
                assert(t.last() == self.buffer@[k as int]);
            }
            let one: usize = match width::char_width(self.buffer[k]) {
                Some(n) => n,
                None => 0,
            };
            w = w.saturating_add(one);
            k = k + 1;
        }
        proof {
            assert(tail.take(tail.len() as int) =~= tail);
        }
        if w > 0 {
            out.append("\x1b[");
            text::push_number(&mut out, w as u64);
            out.append("D");
        }
        out
    }

    pub fn push_history(&mut self, line: &str)
        requires
            old(self).wf(),
        ensures
            final(self).wf(),
            final(self)@ == (EditorView {
                history: remembered(old(self)@.history, line@),
                ..old(self)@
            }),
    {
        proof {
            remembering_keeps_history(self@.history, line@);
        }
        if is_blank(line) {
            return ;
        }
        let n: usize = self.history.len();
        if n > 0 {
            proof {
                assert(self@.history.last() == self.history@[n - 1]@);
            }
            if text::same_text(self.history[n - 1].as_str(), line) {
                return ;
            }
        }
        self.history.push(line.to_owned());
        proof {
            assert(text::texts(self.history@) =~= old(self)@.history.push(line@));
        }
        if self.history.len() > MAX_HISTORY {
            let ghost longer = self.history@;
            let _oldest = self.history.remove(0);
            proof {
                assert(text::texts(self.history@) =~= text::texts(longer).skip(1));
            }
        }
    }

    fn redraw(&self, fx: &mut Effects)
        requires
            self.wf(),
        ensures
            final(fx)@ == redrawing(old(fx)@, self@),
    {
        let line = self.prompt_line();
        fx.echo.append(line.as_str());
    }

    fn submit(&mut self, fx: &mut Effects)
        requires
            old(self).wf(),
        ensures
            final(self).wf(),
            (final(self)@, final(fx)@) == submitted(old(self)@, old(fx)@),
    {
        let line = text::from_chars(&self.buffer);
        self.buffer = Vec::new();
        self.cursor = 0;
        self.hist_idx = None;
        fx.echo.append("\r\n");
        self.push_history(line.as_str());
        fx.submitted.push(line);
        proof {
            assert(final(fx)@.submitted =~= old(fx)@.submitted.push(line@));
            assert(self@ =~= submitted(old(self)@, old(fx)@).0);
        }
    }

    /// Text goes into the line at the cursor.
    fn insert_text(&mut self, chars: Vec<char>)
        requires
            old(self).wf(),
        ensures
            final(self).wf(),
            final(self)@ == with_inserted(old(self)@, chars@),
    {
        let mut chars = chars;
        let ghost inserted = chars@;
        let added: usize = chars.len();
        let mut tail = self.buffer.split_off(self.cursor);
        let ghost tail_view = tail@;
        self.buffer.append(&mut chars);
        let at: usize = self.buffer.len();
        self.buffer.append(&mut tail);
        self.cursor = at;
        proof {
            assert(self@.buffer =~= with_inserted(old(self)@, inserted).buffer);
        }
    }

    /// Bracketed paste payload: inserted literally, newlines become single
    /// spaces — pasted text can never auto-execute.
    fn insert_paste(&mut self, payload: &Vec<char>, fx: &mut Effects)
        requires
            old(self).wf(),
        ensures
            final(self).wf(),
            (final(self)@, final(fx)@) == pasted(old(self)@, payload@, old(fx)@),
    {
        let cleaned = flatten_paste(payload);
        self.insert_text(cleaned);
        self.redraw(fx);
    }

    fn recall(&mut self, idx: usize)
        requires
            old(self).wf(),
            idx < old(self)@.history.len(),
        ensures
            final(self).wf(),
            final(self)@ == recalled(old(self)@, idx as int),
    {
        self.buffer = text::to_chars(self.history[idx].as_str());
        self.cursor = self.buffer.len();
        self.hist_idx = Some(idx);
    }

    /// Do what an escape sequence stands for.
    pub fn apply_escape(&mut self, seq: Escape, fx: &mut Effects)
        requires
            old(self).wf(),
        ensures
            final(self).wf(),
            (final(self)@, final(fx)@) == escaped(old(self)@, seq, old(fx)@),
    {
        match seq {
            Escape::Up => {
                let n: usize = self.history.len();
                if n == 0 {
                    return ;
                }
                match self.hist_idx {
                    None => {
                        self.stashed = clone_chars(&self.buffer, 0, self.buffer.len());
                        proof {
                            assert(self@.stashed =~= old(self)@.buffer);
                        }
                        self.recall(n - 1);
                    },
                    Some(i) => {
                        self.recall(if i == 0 { 0 } else { i - 1 });
                    },
                }
                self.redraw(fx);
            },
            Escape::Down => match self.hist_idx {
                None => {},
                Some(i) => {
                    if i + 1 < self.history.len() {
                        self.recall(i + 1);
                    } else {
                        self.hist_idx = None;
                        self.buffer = clone_chars(&self.stashed, 0, self.stashed.len());
                        self.stashed = Vec::new();
                        self.cursor = self.buffer.len();
                        proof {
                            assert(self@.buffer =~= old(self)@.stashed);
                        }
                    }
                    self.redraw(fx);
                },
            },
            Escape::Left => {
                if self.cursor > 0 {
                    self.cursor = self.cursor - 1;
                    self.redraw(fx);
                }
            },
            Escape::Right => {
                if self.cursor < self.buffer.len() {
                    self.cursor = self.cursor + 1;
                    self.redraw(fx);
                }
            },
            Escape::Home => {
                self.cursor = 0;
                self.redraw(fx);
            },
            Escape::End => {
                self.cursor = self.buffer.len();
                self.redraw(fx);
            },
            Escape::Delete => {
                if self.cursor < self.buffer.len() {
                    let _gone = self.buffer.remove(self.cursor);
                    self.redraw(fx);
                }
            },
            Escape::PasteStart => {
                self.in_paste = true;
                self.paste_buf = Vec::new();
            },
            Escape::Ignored => {},
        }
    }

    fn kill_word(&mut self)
        requires
            old(self).wf(),
        ensures
            final(self).wf(),
            final(self)@ == (EditorView {
                buffer: old(self)@.buffer.take(word_start(old(self)@)) + old(self)@.buffer.skip(
                    old(self)@.cursor,
                ),
                cursor: word_start(old(self)@),
                ..old(self)@
            }),
    {
        let middle: usize = back(&self.buffer, self.cursor, true);
        let start: usize = back(&self.buffer, middle, false);
        let mut tail = self.buffer.split_off(self.cursor);
        self.buffer.truncate(start);
        self.buffer.append(&mut tail);
        self.cursor = start;
        proof {
            assert(self@.buffer =~= old(self)@.buffer.take(start as int) + old(self)@.buffer.skip(
                old(self)@.cursor,
            ));
        }
    }

    /// What a single character does.
    fn type_char(&mut self, c: char, fx: &mut Effects)
        requires
            old(self).wf(),
        ensures
            final(self).wf(),
            (final(self)@, final(fx)@) == typed(old(self)@, c, old(fx)@),
    {
        if c == '\x7f' || c == '\x08' {
            if self.cursor > 0 {
                self.cursor = self.cursor - 1;
                let _gone = self.buffer.remove(self.cursor);
                self.redraw(fx);
            }
        } else if c == '\x03' {
            // Ctrl-C: cancel the edit line; the engine also aborts a running
            // pipeline when it sees `ctrl_c`.
            fx.ctrl_c = true;
            self.buffer = Vec::new();
            self.cursor = 0;
            self.hist_idx = None;
            fx.echo.append("^C\r\n");
            self.redraw(fx);
        } else if c == '\x01' {
            self.cursor = 0;
            self.redraw(fx);
        } else if c == '\x05' {
            self.cursor = self.buffer.len();
            self.redraw(fx);
        } else if c == '\x15' {
            // C-u: kill to line start.
            let tail = self.buffer.split_off(self.cursor);
            self.buffer = tail;
            self.cursor = 0;
            proof {
                assert(self@.buffer =~= old(self)@.buffer.skip(old(self)@.cursor));
            }
            self.redraw(fx);
        } else if c == '\x0b' {
            // C-k: kill to line end.
            self.buffer.truncate(self.cursor);
            proof {
                assert(self@.buffer =~= old(self)@.buffer.take(old(self)@.cursor));
            }
            self.redraw(fx);
        } else if c == '\x17' {
            // C-w: delete the word before the cursor.
            self.kill_word();
            self.redraw(fx);
        } else if c == '\x0c' {
            // C-l: clear screen, redraw the input line at the top.
            fx.echo.append("\x1b[2J\x1b[H");
            self.redraw(fx);
        } else if !text::is_control(c) {
            let mut one: Vec<char> = Vec::new();
            one.push(c);
            proof {
                assert(one@ =~= seq![c]);
            }
            self.insert_text(one);
            if self.cursor == self.buffer.len() {
                // Fast path: appending at the end echoes just the char.
                fx.echo.push(c);
            } else {
                self.redraw(fx);
            }
        }
    }

    /// The part of a paste that this chunk holds; hands back where to go on.
    fn feed_paste(&mut self, data: &Vec<char>, i: usize, fx: &mut Effects) -> (j: usize)
        requires
            old(self).wf(),
            old(self)@.in_paste,
            i < data@.len(),
        ensures
            final(self).wf(),
            (final(self)@, j as int, final(fx)@) == feed_step(
                old(self)@,
                data@,
                i as int,
                old(fx)@,
            ),
            i < j <= data@.len(),
    {
        let n: usize = data.len();
        match locate_paste_end(data, i) {
            Some(j) => {
                let mut part = clone_chars(data, i, j);
                let mut payload = clone_chars(&self.paste_buf, 0, self.paste_buf.len());
                payload.append(&mut part);
                proof {
                    assert(payload@ =~= old(self)@.paste_buf + data@.subrange(i as int, j as int));
                }
                self.paste_buf = Vec::new();
                self.in_paste = false;
                proof {
                    assert(self@ =~= EditorView {
                        in_paste: false,
                        paste_buf: Seq::empty(),
                        ..old(self)@
                    });
                }
                self.insert_paste(&payload, fx);
                j + 6
            },
            None => {
                // Might end with a partial terminator — keep a tail back.
                let keep: usize = partial_suffix_len(data, i);
                let ghost rest = data@.skip(i as int);
                let mut part = clone_chars(data, i, n - keep);
                self.paste_buf.append(&mut part);
                self.pending = clone_chars(data, n - keep, n);
                proof {
                    assert(self@.paste_buf =~= old(self)@.paste_buf + rest.take(
                        rest.len() - keep,
                    ));
                    assert(self@.pending =~= rest.skip(rest.len() - keep));
                    held_marker_ends(rest, 5);
                }
                n
            },
        }
    }

    /// One step through the input; hands back where to go on.
    fn step(&mut self, data: &Vec<char>, i: usize, fx: &mut Effects) -> (j: usize)
        requires
            old(self).wf(),
            i < data@.len(),
        ensures
            final(self).wf(),
            (final(self)@, j as int, final(fx)@) == feed_step(
                old(self)@,
                data@,
                i as int,
                old(fx)@,
            ),
            i < j <= data@.len(),
    {
        if self.in_paste {
            return self.feed_paste(data, i, fx);
        }
        let n: usize = data.len();
        let c = data[i];
        if c == '\x1b' {
            match parse_escape(data, i) {
                None => {
                    self.pending = clone_chars(data, i, n);
                    proof {
                        assert(self@.pending =~= data@.skip(i as int));
                        held_escape_ends(data@, i as int);
                    }
                    n
                },
                Some((e, j)) => {
                    self.apply_escape(e, fx);
                    j
                },
            }
        } else if c == '\r' || c == '\n' {
            self.submit(fx);
            // Swallow the LF of a CRLF pair.
            if c == '\r' && i + 1 < n && data[i + 1] == '\n' {
                i + 2
            } else {
                i + 1
            }
        } else {
            self.type_char(c, fx);
            i + 1
        }
    }

    /// A chunk of input goes through the editor.
    pub fn feed(&mut self, input: &str) -> (fx: Effects)
        requires
            old(self).wf(),
        ensures
            final(self).wf(),
            (final(self)@, fx@) == fed(old(self)@, input@),
    {
        let mut fx = Effects::none();
        let mut data = clone_chars(&self.pending, 0, self.pending.len());
        let mut more = text::to_chars(input);
        data.append(&mut more);
        self.pending = Vec::new();
        let ghost start = self@;
        proof {
            assert(data@ =~= old(self)@.pending + input@);
            assert(start =~= EditorView { pending: Seq::empty(), ..old(self)@ });
        }
        let mut i: usize = 0;
        while i < data.len()
            invariant
                i <= data@.len(),
                self.wf(),
                feed_from(start, data@, 0, no_effects()) == feed_from(
                    self@,
                    data@,
                    i as int,
                    fx@,
                ),
            decreases data@.len() - i,
        {
            i = self.step(&data, i, &mut fx);
        }
        fx
    }
}

impl Clone for LineEditor {
    fn clone(&self) -> (r: Self)
        ensures
            r@ == self@,
    {
        let r = LineEditor {
            buffer: clone_chars(&self.buffer, 0, self.buffer.len()),
            cursor: self.cursor,
            history: text::clone_texts(&self.history),
            hist_idx: self.hist_idx,
            stashed: clone_chars(&self.stashed, 0, self.stashed.len()),
            pending: clone_chars(&self.pending, 0, self.pending.len()),
            in_paste: self.in_paste,
            paste_buf: clone_chars(&self.paste_buf, 0, self.paste_buf.len()),
            last_ok: self.last_ok,
        };
        proof {
            assert(r@ =~= self@);
        }
        r
    }
}

impl Default for LineEditor {
    fn default() -> (r: Self)
        ensures
            r.wf(),
            r@ == (EditorView {
                buffer: Seq::empty(),
                cursor: 0,
                history: Seq::empty(),
                hist_idx: None,
                stashed: Seq::empty(),
                pending: Seq::empty(),
                in_paste: false,
                paste_buf: Seq::empty(),
                last_ok: true,
            }),
    {
        LineEditor::new()
    }
}

/// Effects one after the other.
pub open spec fn combined(f: EffectsView, g: EffectsView) -> EffectsView {
    EffectsView {
        echo: f.echo + g.echo,
        submitted: f.submitted + g.submitted,
        ctrl_c: f.ctrl_c || g.ctrl_c,
    }
}

proof fn combining_nothing(g: EffectsView)
    ensures
        combined(g, no_effects()) == g,
        combined(no_effects(), g) == g,
{
    assert(combined(g, no_effects()) =~= g);
    assert(combined(no_effects(), g) =~= g);
}

proof fn echoing_adds(f: EffectsView, g: EffectsView, s: Seq<char>)
    ensures
        echoing(combined(f, g), s) == combined(f, echoing(g, s)),
{
    assert(echoing(combined(f, g), s) =~= combined(f, echoing(g, s)));
}

proof fn typing_adds(ed: EditorView, c: char, f: EffectsView, g: EffectsView)
    ensures
        ({
            let (a, x) = typed(ed, c, g);
            typed(ed, c, combined(f, g)) == (a, combined(f, x))
        }),
{
    let (a, x) = typed(ed, c, g);
    echoing_adds(f, g, redrawn(a));
    let (b, y) = typed(ed, c, combined(f, g));
    if c == '\x03' || c == '\x0c' || !text::control(c) {
        assert(y =~= combined(f, x));
    }
}

proof fn escaping_adds(ed: EditorView, e: Escape, f: EffectsView, g: EffectsView)
    ensures
        ({
            let (a, x) = escaped(ed, e, g);
            escaped(ed, e, combined(f, g)) == (a, combined(f, x))
        }),
{
    let (a, x) = escaped(ed, e, g);
    echoing_adds(f, g, redrawn(a));
}

proof fn submitting_adds(ed: EditorView, f: EffectsView, g: EffectsView)
    ensures
        ({
            let (a, x) = submitted(ed, g);
            submitted(ed, combined(f, g)) == (a, combined(f, x))
        }),
{
    let (a, x) = submitted(ed, g);
    let (b, y) = submitted(ed, combined(f, g));
    assert(y =~= combined(f, x));
}

proof fn pasting_adds(ed: EditorView, payload: Seq<char>, f: EffectsView, g: EffectsView)
    ensures
        ({
            let (a, x) = pasted(ed, payload, g);
            pasted(ed, payload, combined(f, g)) == (a, combined(f, x))
        }),
{
    let (a, x) = pasted(ed, payload, g);
    echoing_adds(f, g, redrawn(a));
}

/// A step only adds to the effects.
proof fn step_adds(
    ed: EditorView,
    data: Seq<char>,
    i: int,
    f: EffectsView,
    g: EffectsView,
)
    ensures
        ({
            let (a, j, x) = feed_step(ed, data, i, g);
            feed_step(ed, data, i, combined(f, g)) == (a, j, combined(f, x))
        }),
{
    if ed.in_paste {
        match find_paste_end(data, i) {
            Some(j) => {
                pasting_adds(
                    EditorView { in_paste: false, paste_buf: Seq::empty(), ..ed },
                    ed.paste_buf + data.subrange(i, j),
                    f,
                    g,
                );
            },
            None => {},
        }
    } else if data[i] == '\x1b' {
        match escape_at(data, i) {
            None => {},
            Some((e, _)) => escaping_adds(ed, e, f, g),
        }
    } else if data[i] == '\r' || data[i] == '\n' {
        submitting_adds(ed, f, g);
    } else {
        typing_adds(ed, data[i], f, g);
    }
}

proof fn feeding_adds(
    ed: EditorView,
    data: Seq<char>,
    i: int,
    f: EffectsView,
    g: EffectsView,
)
    ensures
        ({
            let (a, x) = feed_from(ed, data, i, g);
            feed_from(ed, data, i, combined(f, g)) == (a, combined(f, x))
        }),
    decreases data.len() - i,
{
    if 0 <= i < data.len() {
        step_adds(ed, data, i, f, g);
        let (a, j, x) = feed_step(ed, data, i, g);
        if i < j <= data.len() {
            feeding_adds(a, data, j, f, x);
        }
    }
}

proof fn csi_shift(x: Seq<char>, y: Seq<char>, i: int, j: int)
    requires
        0 <= i <= j,
    ensures
        csi_from(x + y, x.len() + i, x.len() + j) == (match csi_from(y, i, j) {
            Some((e, k)) => Some((e, x.len() + k)),
            None => None,
        }),
    decreases y.len() - j,
{
    if j < y.len() {
        assert((x + y)[x.len() + j] == y[j]);
        assert((x + y).subrange(x.len() + i, x.len() + j + 1) =~= y.subrange(i, j + 1));
        csi_shift(x, y, i, j + 1);
    }
}

proof fn paste_end_shift(x: Seq<char>, y: Seq<char>, i: int)
    requires
        0 <= i,
    ensures
        find_paste_end(x + y, x.len() + i) == (match find_paste_end(y, i) {
            Some(k) => Some(x.len() + k),
            None => None,
        }),
    decreases y.len() - i,
{
    if i < y.len() {
        if i + 6 <= y.len() {
            assert((x + y).subrange(x.len() + i, x.len() + i + 6) =~= y.subrange(i, i + 6));
        }
        paste_end_shift(x, y, i + 1);
    }
}

proof fn found_paste_end(data: Seq<char>, i: int)
    requires
        0 <= i,
    ensures
        match find_paste_end(data, i) {
            Some(j) => i <= j && paste_ends_at(data, j) && forall|k: int|
                i <= k < j ==> !#[trigger] paste_ends_at(data, k),
            None => forall|k: int| i <= k ==> !#[trigger] paste_ends_at(data, k),
        },
    decreases data.len() - i,
{
    if i < data.len() {
        found_paste_end(data, i + 1);
    }
}

proof fn paste_end_is(data: Seq<char>, i: int, j: int)
    requires
        0 <= i <= j,
        paste_ends_at(data, j),
        forall|k: int| i <= k < j ==> !#[trigger] paste_ends_at(data, k),
    ensures
        find_paste_end(data, i) == Some(j),
    decreases j - i,
{
    if i < j {
        assert(!paste_ends_at(data, i));
        paste_end_is(data, i + 1, j);
    }
}

/// A step does not depend on the input before it.
proof fn step_shift(ed: EditorView, x: Seq<char>, y: Seq<char>, i: int, fx: EffectsView)
    requires
        0 <= i < y.len(),
    ensures
        ({
            let (a, j, g) = feed_step(ed, y, i, fx);
            feed_step(ed, x + y, x.len() + i, fx) == (a, x.len() + j, g)
        }),
{
    let d = x + y;
    let p = x.len() + i;
    assert(d[p] == y[i]);
    assert(d.skip(p) =~= y.skip(i));
    if i + 1 < y.len() {
        assert(d[p + 1] == y[i + 1]);
    }
    if ed.in_paste {
        paste_end_shift(x, y, i);
        found_paste_end(y, i);
        match find_paste_end(y, i) {
            Some(j) => {
                assert(d.subrange(p, x.len() + j) =~= y.subrange(i, j));
            },
            None => {},
        }
    } else {
        csi_shift(x, y, i, i + 2);
    }
}

proof fn feeding_shift(ed: EditorView, x: Seq<char>, y: Seq<char>, i: int, fx: EffectsView)
    requires
        0 <= i,
    ensures
        feed_from(ed, x + y, x.len() + i, fx) == feed_from(ed, y, i, fx),
    decreases y.len() - i,
{
    if i < y.len() {
        step_shift(ed, x, y, i, fx);
        let (a, j, g) = feed_step(ed, y, i, fx);
        if i < j <= y.len() {
            feeding_shift(a, x, y, j, g);
        }
    }
}

/// What a CSI sequence is does not depend on the input after it.
proof fn csi_extends(data: Seq<char>, more: Seq<char>, i: int, j: int)
    requires
        0 <= i <= j,
        csi_from(data, i, j) is Some,
    ensures
        csi_from(data + more, i, j) == csi_from(data, i, j),
        csi_from(data, i, j) matches Some((_, k)) && j < k <= data.len(),
    decreases data.len() - j,
{
    if j < data.len() {
        assert((data + more)[j] == data[j]);
        assert((data + more).subrange(i, j + 1) =~= data.subrange(i, j + 1));
        if !csi_final(data[j]) && csi_param(data[j]) {
            csi_extends(data, more, i, j + 1);
        }
    }
}

/// The longest possible beginning of an end marker is kept.
proof fn partial_end_is_longest(rest: Seq<char>, k: nat, m: nat)
    requires
        m <= k <= 5,
        0 < m <= rest.len(),
        rest.skip(rest.len() - m) == paste_end().take(m as int),
    ensures
        partial_end(rest, k) >= m,
    decreases k,
{
    if k > m && !(k <= rest.len() && rest.skip(rest.len() - k) == paste_end().take(k as int)) {
        partial_end_is_longest(rest, (k - 1) as nat, m);
    }
}

proof fn partial_end_bound(rest: Seq<char>, k: nat)
    ensures
        partial_end(rest, k) <= rest.len(),
        partial_end(rest, k) <= k,
    decreases k,
{
    if k > 0 {
        partial_end_bound(rest, (k - 1) as nat);
    }
}

/// Where the input breaks off inside a paste, the end marker in the longer
/// input starts no earlier than what was kept back.
proof fn marker_starts_in_kept(data: Seq<char>, more: Seq<char>, i: int, p: int)
    requires
        0 <= i <= p,
        find_paste_end(data, i) is None,
        paste_ends_at(data + more, p),
    ensures
        data.len() - partial_end(data.skip(i), 5) <= p,
{
    let rest = data.skip(i);
    let d = data + more;
    partial_end_bound(rest, 5);
    if p < data.len() {
        found_paste_end(data, i);
        if p + 6 <= data.len() {
            assert(d.subrange(p, p + 6) =~= data.subrange(p, p + 6));
            assert(paste_ends_at(data, p));
        } else {
            let m = (data.len() - p) as nat;
            let part = d.subrange(p, p + 6);
            assert(rest.skip(rest.len() - m) =~= paste_end().take(m as int)) by {
                assert forall|z: int| 0 <= z < m implies rest.skip(rest.len() - m)[z]
                    == paste_end()[z] by {
                    assert(part[z] == d[p + z]);
                }
            }
            partial_end_is_longest(rest, 5, m);
        }
    }
}

/// What an unfinished paste has certainly taken in, of the input from `i` on.
spec fn taken_in(ed: EditorView, data: Seq<char>, i: int) -> EditorView {
    let rest = data.skip(i);
    EditorView {
        paste_buf: ed.paste_buf + rest.take(rest.len() - partial_end(rest, 5)),
        pending: Seq::empty(),
        ..ed
    }
}

/// A paste that breaks off and whose end marker then comes.
proof fn paste_ends_later(
    ed: EditorView,
    data: Seq<char>,
    more: Seq<char>,
    i: int,
    p: int,
    fx: EffectsView,
)
    requires
        0 <= i < data.len(),
        ed.in_paste,
        ed.pending.len() == 0,
        find_paste_end(data, i) is None,
        find_paste_end(data + more, i) == Some(p),
    ensures
        ({
            let q = data.len() - partial_end(data.skip(i), 5);
            feed_from(ed, data + more, i, fx) == feed_from(
                taken_in(ed, data, i),
                data + more,
                q as int,
                fx,
            )
        }),
{
    let d = data + more;
    let rest = data.skip(i);
    let keep = partial_end(rest, 5);
    let q = data.len() - keep;
    let held = rest.take(rest.len() - keep);
    let mid = taken_in(ed, data, i);
    partial_end_bound(rest, 5);
    found_paste_end(d, i);
    marker_starts_in_kept(data, more, i, p);
    assert forall|k: int| q <= k < p implies !#[trigger] paste_ends_at(d, k) by {
        assert(i <= k);
    }
    paste_end_is(d, q, p);
    assert(ed.paste_buf + d.subrange(i, p) =~= (ed.paste_buf + held) + d.subrange(q, p));
    assert(EditorView { in_paste: false, paste_buf: Seq::empty(), ..ed } =~= EditorView {
        in_paste: false,
        paste_buf: Seq::empty(),
        ..mid
    });
    assert(feed_step(ed, d, i, fx) == feed_step(mid, d, q, fx));
}

/// A paste that breaks off and is still open when more input has come.
proof fn paste_stays_open(
    ed: EditorView,
    data: Seq<char>,
    more: Seq<char>,
    i: int,
    fx: EffectsView,
)
    requires
        0 <= i < data.len(),
        ed.in_paste,
        ed.pending.len() == 0,
        find_paste_end(data, i) is None,
        find_paste_end(data + more, i) is None,
    ensures
        ({
            let q = data.len() - partial_end(data.skip(i), 5);
            feed_from(ed, data + more, i, fx) == feed_from(
                taken_in(ed, data, i),
                data + more,
                q as int,
                fx,
            )
        }),
{
    let d = data + more;
    let rest = data.skip(i);
    let keep = partial_end(rest, 5);
    let q = data.len() - keep;
    let held = rest.take(rest.len() - keep);
    let mid = taken_in(ed, data, i);
    partial_end_bound(rest, 5);
    found_paste_end(d, i);
    found_paste_end(d, q);
    let long = d.skip(i);
    let short = d.skip(q);
    assert(long =~= held + short);
    assert(short =~= long.skip(held.len() as int));
    assert forall|m: nat|
        m <= 5 && short.len() < m <= long.len() implies #[trigger] long.skip(long.len() - m)
        != paste_end().take(m as int) by {
        if long.skip(long.len() - m) == paste_end().take(m as int) {
            let n = (m - more.len()) as nat;
            let whole = long.skip(long.len() - m);
            assert(rest.skip(rest.len() - n) =~= paste_end().take(n as int)) by {
                assert forall|z: int| 0 <= z < n implies rest.skip(rest.len() - n)[z]
                    == paste_end()[z] by {
                    assert(whole[z] == paste_end().take(m as int)[z]);
                }
            }
            partial_end_is_longest(rest, 5, n);
        }
    }
    partial_end_suffix(long, short, 5, held.len());
    let k2 = partial_end(long, 5);
    partial_end_bound(short, 5);
    assert(ed.paste_buf + long.take(long.len() - k2) =~= (ed.paste_buf + held) + short.take(
        short.len() - k2,
    ));
    assert(long.skip(long.len() - k2) =~= short.skip(short.len() - k2));
    if q < d.len() {
        match find_paste_end(d, q) {
            Some(p) => {
                assert(!paste_ends_at(d, p));
            },
            None => {},
        }
        assert(feed_step(ed, d, i, fx) == feed_step(mid, d, q, fx));
    } else {
        let (a, j, g) = feed_step(ed, d, i, fx);
        assert(a =~= mid);
    }
}

/// A paste that breaks off, and then goes on.
#[verifier::spinoff_prover]
#[verifier::rlimit(40)]
proof fn paste_breaking_off(
    ed: EditorView,
    data: Seq<char>,
    more: Seq<char>,
    i: int,
    fx: EffectsView,
)
    requires
        0 <= i < data.len(),
        ed.pending.len() == 0,
        ed.in_paste,
        find_paste_end(data, i) is None,
    ensures
        ({
            let (a, _, g) = feed_step(ed, data, i, fx);
            feed_from(EditorView { pending: Seq::empty(), ..a }, a.pending + more, 0, g)
                == feed_from(ed, data + more, i, fx)
        }),
{
    let d = data + more;
    let (a, _, g) = feed_step(ed, data, i, fx);
    let next = EditorView { pending: Seq::empty(), ..a };
    let rest = data.skip(i);
    let keep = partial_end(rest, 5);
    partial_end_bound(rest, 5);
    let front = data.take(data.len() - keep);
    assert(d =~= front + (a.pending + more));
    assert(next =~= taken_in(ed, data, i));
    feeding_shift(next, front, a.pending + more, 0, fx);
    match find_paste_end(d, i) {
        Some(p) => paste_ends_later(ed, data, more, i, p, fx),
        None => paste_stays_open(ed, data, more, i, fx),
    }
}

/// Input that breaks off in the middle of something, and then goes on.
proof fn breaking_off(ed: EditorView, data: Seq<char>, more: Seq<char>, i: int, fx: EffectsView)
    requires
        0 <= i < data.len(),
        ed.pending.len() == 0,
        ed.in_paste ==> find_paste_end(data, i) is None,
        !ed.in_paste ==> data[i] == '\x1b' && escape_at(data, i) is None,
    ensures
        ({
            let (a, _, g) = feed_step(ed, data, i, fx);
            feed_from(EditorView { pending: Seq::empty(), ..a }, a.pending + more, 0, g)
                == feed_from(ed, data + more, i, fx)
        }),
{
    if ed.in_paste {
        paste_breaking_off(ed, data, more, i, fx);
    } else {
        let (a, _, g) = feed_step(ed, data, i, fx);
        let rest = data.skip(i);
        assert(data + more =~= data.take(i) + (rest + more));
        assert(EditorView { pending: Seq::empty(), ..a } =~= ed);
        feeding_shift(ed, data.take(i), rest + more, 0, fx);
    }
}

/// The kept part of a longer text is the kept part of its end, where the end
/// already holds every candidate.
proof fn partial_end_suffix(long: Seq<char>, short: Seq<char>, k: nat, drop: nat)
    requires
        drop <= long.len(),
        short == long.skip(drop as int),
        k <= 5,
        forall|m: nat|
            m <= 5 && short.len() < m <= long.len() ==> #[trigger] long.skip(long.len() - m)
                != paste_end().take(m as int),
    ensures
        partial_end(long, k) == partial_end(short, k),
    decreases k,
{
    if k > 0 {
        partial_end_suffix(long, short, (k - 1) as nat, drop);
        if k <= short.len() {
            assert(long.skip(long.len() - k) =~= short.skip(short.len() - k));
        } else if k <= long.len() {
            assert(long.skip(long.len() - k) != paste_end().take(k as int));
        }
    }
}

/// A step that does not break off is the same whatever input follows, except
/// where a line break of two characters is cut in half.
proof fn step_extends(ed: EditorView, data: Seq<char>, more: Seq<char>, i: int, fx: EffectsView)
    requires
        0 <= i < data.len(),
        ed.in_paste ==> find_paste_end(data, i) is Some,
        !ed.in_paste && data[i] == '\x1b' ==> escape_at(data, i) is Some,
        !(data.last() == '\r' && more.len() > 0 && more[0] == '\n'),
    ensures
        feed_step(ed, data + more, i, fx) == feed_step(ed, data, i, fx),
        i < feed_step(ed, data, i, fx).1 <= data.len(),
{
    let d = data + more;
    assert(d[i] == data[i]);
    if i + 1 < data.len() {
        assert(d[i + 1] == data[i + 1]);
    }
    if ed.in_paste {
        found_paste_end(data, i);
        let j = find_paste_end(data, i)->0;
        assert(d.subrange(j, j + 6) =~= data.subrange(j, j + 6));
        assert forall|k: int| i <= k < j implies !#[trigger] paste_ends_at(d, k) by {
            assert(!paste_ends_at(data, k));
            assert(d.subrange(k, k + 6) =~= data.subrange(k, k + 6));
        }
        paste_end_is(d, i, j);
        assert(d.subrange(i, j) =~= data.subrange(i, j));
    } else if data[i] == '\x1b' {
        if data[i + 1] == '[' {
            csi_extends(data, more, i, i + 2);
        }
    }
}

/// After every step nothing is pending, or the input is used up.
proof fn step_leaves_pending(ed: EditorView, data: Seq<char>, i: int, fx: EffectsView)
    requires
        0 <= i < data.len(),
        ed.pending.len() == 0,
        ed.in_paste ==> find_paste_end(data, i) is Some,
        !ed.in_paste && data[i] == '\x1b' ==> escape_at(data, i) is Some,
    ensures
        feed_step(ed, data, i, fx).0.pending.len() == 0,
{
}

proof fn feeding_in_two(ed: EditorView, data: Seq<char>, more: Seq<char>, i: int, fx: EffectsView)
    requires
        0 <= i <= data.len(),
        ed.pending.len() == 0,
        !(data.len() > 0 && data.last() == '\r' && more.len() > 0 && more[0] == '\n'),
    ensures
        ({
            let (a, g) = feed_from(ed, data, i, fx);
            feed_from(EditorView { pending: Seq::empty(), ..a }, a.pending + more, 0, g)
                == feed_from(ed, data + more, i, fx)
        }),
    decreases data.len() - i,
{
    let d = data + more;
    if i == data.len() {
        assert(EditorView { pending: Seq::empty(), ..ed } =~= ed);
        assert(ed.pending + more =~= more);
        feeding_shift(ed, data, more, 0, fx);
    } else {
        let open = if ed.in_paste {
            find_paste_end(data, i) is None
        } else {
            data[i] == '\x1b' && escape_at(data, i) is None
        };
        if open {
            breaking_off(ed, data, more, i, fx);
            let (a, j, g) = feed_step(ed, data, i, fx);
            assert(feed_from(a, data, j, g) == (a, g));
        } else {
            step_extends(ed, data, more, i, fx);
            step_leaves_pending(ed, data, i, fx);
            let (a, j, g) = feed_step(ed, data, i, fx);
            feeding_in_two(a, data, more, j, g);
        }
    }
}

/// Chunks do not matter: input that comes in two chunks does what it does in
/// one, be it cut inside an escape sequence or inside a paste. The one cut
/// that shows is between the two characters of a CR LF line break.
pub proof fn chunks_do_not_matter(ed: EditorView, first: Seq<char>, second: Seq<char>)
    requires
        ed.wf(),
        !(first.len() > 0 && first.last() == '\r' && second.len() > 0 && second[0] == '\n'),
    ensures
        ({
            let (middle, f) = fed(ed, first);
            let (after, g) = fed(middle, second);
            fed(ed, first + second) == (after, combined(f, g))
        }),
{
    let start = EditorView { pending: Seq::empty(), ..ed };
    let data = ed.pending + first;
    let (middle, f) = fed(ed, first);
    if data.len() > 0 {
        if first.len() > 0 {
            assert(data.last() == first.last());
        } else {
            assert(data =~= ed.pending);
        }
    }
    feeding_in_two(start, data, second, 0, no_effects());
    assert(data + second =~= ed.pending + (first + second));
    let next = EditorView { pending: Seq::empty(), ..middle };
    feeding_adds(next, middle.pending + second, 0, f, no_effects());
    combining_nothing(f);
}

/// An escape sequence that comes `k` times.
pub open spec fn escaped_times(ed: EditorView, e: Escape, k: nat, fx: EffectsView) -> (
    EditorView,
    EffectsView,
)
    decreases k,
{
    if k == 0 {
        (ed, fx)
    } else {
        let (before, more) = escaped_times(ed, e, (k - 1) as nat, fx);
        escaped(before, e, more)
    }
}

/// Where `k` steps up the history lead: to the line that far from its end, or to
/// the oldest, with the draft put away.
proof fn stepping_up(ed: EditorView, k: nat, fx: EffectsView)
    requires
        ed.wf(),
        ed.hist_idx is None,
        ed.history.len() > 0,
        k > 0,
    ensures
        ({
            let (up, _) = escaped_times(ed, Escape::Up, k, fx);
            let idx = if k <= ed.history.len() {
                ed.history.len() - k
            } else {
                0
            };
            up == recalled(EditorView { stashed: ed.buffer, ..ed }, idx)
        }),
    decreases k,
{
    if k > 1 {
        stepping_up(ed, (k - 1) as nat, fx);
    } else {
        assert(escaped_times(ed, Escape::Up, 0, fx) == (ed, fx));
    }
}

/// Where `k` steps down lead from a line of the history: towards its end, and
/// then to the draft.
proof fn stepping_down(ed: EditorView, k: nat, fx: EffectsView)
    requires
        ed.hist_idx matches Some(i) && 0 <= i < ed.history.len(),
        ed.buffer == ed.history[ed.hist_idx->Some_0],
        ed.cursor == ed.buffer.len(),
    ensures
        ({
            let (down, _) = escaped_times(ed, Escape::Down, k, fx);
            let i = ed.hist_idx->Some_0;
            if i + k < ed.history.len() {
                down == recalled(ed, i + k)
            } else {
                down == (EditorView {
                    hist_idx: None,
                    buffer: ed.stashed,
                    cursor: ed.stashed.len() as int,
                    stashed: Seq::empty(),
                    ..ed
                })
            }
        }),
    decreases k,
{
    if k > 0 {
        stepping_down(ed, (k - 1) as nat, fx);
    } else {
        assert(recalled(ed, ed.hist_idx->Some_0) == ed);
    }
}

proof fn standing_still(ed: EditorView, e: Escape, k: nat, fx: EffectsView)
    requires
        escaped(ed, e, fx) == (ed, fx),
    ensures
        escaped_times(ed, e, k, fx) == (ed, fx),
    decreases k,
{
    if k > 0 {
        standing_still(ed, e, (k - 1) as nat, fx);
    }
}

/// Looking through the history loses nothing: as many steps down as up bring the
/// draft back, with the cursor at its end, and leave the history as it was.
/// Without a history no step shows.
pub proof fn stepping_back_restores_the_draft(ed: EditorView, k: nat, fx: EffectsView)
    requires
        ed.wf(),
        ed.hist_idx is None,
    ensures
        ({
            let (up, f) = escaped_times(ed, Escape::Up, k, fx);
            let (back, g) = escaped_times(up, Escape::Down, k, f);
            &&& back.buffer == ed.buffer
            &&& back.history == ed.history
            &&& back.hist_idx is None
            &&& k > 0 && ed.history.len() > 0 ==> back.cursor == ed.buffer.len()
            &&& ed.history.len() == 0 ==> back == ed && g == fx
        }),
{
    let (up, f) = escaped_times(ed, Escape::Up, k, fx);
    if ed.history.len() == 0 {
        standing_still(ed, Escape::Up, k, fx);
        standing_still(ed, Escape::Down, k, fx);
    } else if k > 0 {
        stepping_up(ed, k, fx);
        stepping_down(up, k, f);
    }
}

/// Pasted text can never execute: whatever a bracketed paste holds, it goes
/// into the line, its line breaks as spaces, and nothing is submitted.
pub proof fn paste_never_submits(ed: EditorView, payload: Seq<char>)
    requires
        !ed.in_paste,
        ed.pending.len() == 0,
        forall|k: int|
            0 <= k < payload.len() ==> !#[trigger] paste_ends_at(payload + paste_end(), k),
    ensures
        ({
            let (after, fx) = fed(ed, "\x1b[200~"@ + payload + paste_end());
            &&& fx.submitted.len() == 0
            &&& !fx.ctrl_c
            &&& after.buffer == ed.buffer.take(ed.cursor) + flattened(payload, 0)
                + ed.buffer.skip(ed.cursor)
            &&& after.history == ed.history
            &&& !after.in_paste
        }),
{
    let mark = "\x1b[200~"@;
    reveal_strlit("\x1b[200~");
    reveal_strlit("\x1b[A");
    reveal_strlit("\x1b[B");
    reveal_strlit("\x1b[C");
    reveal_strlit("\x1b[D");
    reveal_strlit("\x1b[H");
    reveal_strlit("\x1b[F");
    reveal_strlit("\x1b[1~");
    reveal_strlit("\x1b[7~");
    reveal_strlit("\x1b[4~");
    reveal_strlit("\x1b[8~");
    reveal_strlit("\x1b[3~");
    let tail = payload + paste_end();
    let data = mark + payload + paste_end();
    assert(ed.pending + data =~= data);
    assert(data =~= mark + tail);
    let start = EditorView { pending: Seq::empty(), ..ed };
    let fx = no_effects();
    assert(data.subrange(0, 6) =~= mark);
    reveal_with_fuel(csi_from, 5);
    assert(csi_meaning(mark) == Escape::PasteStart);
    assert(escape_at(data, 0) == Some((Escape::PasteStart, 6int)));
    let open = EditorView { in_paste: true, paste_buf: Seq::empty(), ..start };
    assert(feed_step(start, data, 0, fx) == (open, 6int, fx));
    feeding_shift(open, mark, tail, 0, fx);
    assert(tail.subrange(payload.len() as int, payload.len() as int + 6) =~= paste_end());
    paste_end_is(tail, 0, payload.len() as int);
    assert(open.paste_buf + tail.subrange(0, payload.len() as int) =~= payload);
    let (after, end, more) = feed_step(open, tail, 0, fx);
    assert(end == tail.len());
    assert(feed_from(after, tail, end, more) == (after, more));
    assert(feed_from(open, tail, 0, fx) == (after, more));
    assert(feed_from(start, data, 0, fx) == feed_from(open, data, 6, fx));
}

proof fn typing_from(ed: EditorView, line: Seq<char>, i: int, fx: EffectsView)
    requires
        !ed.in_paste,
        ed.cursor == ed.buffer.len(),
        0 <= i <= line.len(),
        forall|k: int| 0 <= k < line.len() ==> !text::control(#[trigger] line[k]),
    ensures
        ({
            let (after, more) = feed_from(ed, line.push('\r'), i, fx);
            &&& more.submitted == fx.submitted.push(ed.buffer + line.skip(i))
            &&& after.buffer.len() == 0
            &&& after.history == remembered(ed.history, ed.buffer + line.skip(i))
        }),
    decreases line.len() - i,
{
    let data = line.push('\r');
    let (after, j, more) = feed_step(ed, data, i, fx);
    if i == line.len() {
        assert(line.skip(i) =~= Seq::empty());
        assert(ed.buffer + line.skip(i) =~= ed.buffer);
        assert(feed_from(after, data, j, more) == (after, more));
    } else {
        let c = line[i];
        assert(data[i] == c);
        assert(ed.buffer.take(ed.cursor) + seq![c] + ed.buffer.skip(ed.cursor) =~= ed.buffer.push(
            c,
        ));
        assert(ed.buffer.push(c) + line.skip(i + 1) =~= ed.buffer + line.skip(i));
        typing_from(after, line, i + 1, more);
    }
}

/// Typing a line and Enter submits exactly that line: printable text at the
/// end of the line joins it, and Enter hands the whole line over and starts
/// an empty one.
pub proof fn typed_line_is_submitted(ed: EditorView, line: Seq<char>)
    requires
        !ed.in_paste,
        ed.pending.len() == 0,
        ed.cursor == ed.buffer.len(),
        forall|k: int| 0 <= k < line.len() ==> !text::control(#[trigger] line[k]),
    ensures
        ({
            let (after, fx) = fed(ed, line.push('\r'));
            &&& fx.submitted == seq![ed.buffer + line]
            &&& after.buffer.len() == 0
            &&& after.history == remembered(ed.history, ed.buffer + line)
        }),
{
    let start = EditorView { pending: Seq::empty(), ..ed };
    assert(ed.pending + line.push('\r') =~= line.push('\r'));
    typing_from(start, line, 0, no_effects());
    assert(line.skip(0) =~= line);
    assert(no_effects().submitted.push(ed.buffer + line) =~= seq![ed.buffer + line]);
}

} // verus!
