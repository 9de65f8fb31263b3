//! Rendering: tables, records, scalars, and the sanitizers.

use bterm::ask::{FloatOp, Query, Replies, Reply, Stop};
use bterm::float::Float;
use bterm::mux::share::Share;
use bterm::render::stream::StreamRenderer;
use bterm::render::{diagnostic_text, render as render_with, writer_text};
use bterm::value::Value;
use unicode_width::UnicodeWidthStr;

fn float(f: f64) -> Float {
    Float { bits: f.to_bits() }
}

fn number(f: Float) -> f64 {
    f64::from_bits(f.bits)
}

fn compute(op: FloatOp, a: f64, b: f64) -> f64 {
    match op {
        FloatOp::Add => a + b,
        FloatOp::Sub => a - b,
        FloatOp::Mul => a * b,
        FloatOp::Div => a / b,
        FloatOp::Rem => a % b,
    }
}

fn json_of(v: &Value) -> serde_json::Value {
    match v {
        Value::Null => serde_json::Value::Null,
        Value::Bool(b) => serde_json::Value::Bool(*b),
        Value::Int(n) => serde_json::Value::from(*n),
        Value::Float(f) => serde_json::Value::from(number(*f)),
        Value::Str(s) => serde_json::Value::from(s.clone()),
        Value::Bytes(b) => serde_json::Value::from(b.as_slice()),
        Value::List(items) => serde_json::Value::Array(items.iter().map(json_of).collect()),
        Value::Record(fields) => {
            let mut out = serde_json::Map::new();
            for i in 0..fields.len() {
                out.insert(fields.name(i).clone(), json_of(fields.at(i)));
            }
            serde_json::Value::Object(out)
        }
    }
}

fn value_of(v: &serde_json::Value) -> Value {
    match v {
        serde_json::Value::Null => Value::Null,
        serde_json::Value::Bool(b) => Value::Bool(*b),
        serde_json::Value::Number(n) => match n.as_i64() {
            Some(i) => Value::Int(i),
            None => Value::Float(float(n.as_f64().unwrap_or(0.0))),
        },
        serde_json::Value::String(s) => Value::Str(s.clone()),
        serde_json::Value::Array(items) => Value::List(items.iter().map(value_of).collect()),
        serde_json::Value::Object(fields) => {
            Value::record(fields.iter().map(|(k, v)| (k.clone(), value_of(v))).collect())
        }
    }
}

/// What any program answers: arithmetic, texts of floats and JSON.
fn calculate(q: &Query) -> Reply {
    match q {
        Query::ParseFloat(s) => match s.parse::<f64>() {
            Ok(f) => Reply::Float(float(f)),
            Err(e) => Reply::Refused(e.to_string()),
        },
        Query::ShowFloat(f) => Reply::Text(number(*f).to_string()),
        Query::Compute(op, a, b) => Reply::Float(float(compute(*op, number(*a), number(*b)))),
        Query::Share(op, a, b) => {
            let (x, y) = (f32::from_bits(a.bits), f32::from_bits(b.bits));
            let z = match op {
                FloatOp::Add => x + y,
                FloatOp::Sub => x - y,
                FloatOp::Mul => x * y,
                FloatOp::Div => x / y,
                FloatOp::Rem => x % y,
            };
            Reply::Share(Share { bits: z.to_bits() })
        }
        Query::WriteJson(v, pretty) => {
            let json = json_of(v);
            let text = if *pretty {
                serde_json::to_string_pretty(&json)
            } else {
                serde_json::to_string(&json)
            };
            Reply::Text(text.expect("values serialize"))
        }
        Query::ReadJson(s) => match serde_json::from_str::<serde_json::Value>(s) {
            Ok(v) => Reply::Value(value_of(&v)),
            Err(e) => Reply::Refused(e.to_string()),
        },
        other => panic!("no answer to {other:?}"),
    }
}

/// Run a computation, answering what it asks.
fn settle<T>(mut f: impl FnMut(&Replies) -> Result<T, Stop>) -> T {
    let mut replies = Replies::new();
    loop {
        match f(&replies) {
            Ok(v) => return v,
            Err(Stop::Fail(e)) => panic!("{}", e.msg),
            Err(Stop::Need(q)) => {
                let r = calculate(&q);
                replies.add_reply(q, r);
            }
        }
    }
}

fn render(v: &Value, width: u16) -> String {
    settle(|r| render_with(v, width, r))
}

fn strip_ansi(s: &str) -> String {
    let mut out = String::new();
    let mut chars = s.chars().peekable();
    while let Some(c) = chars.next() {
        if c == '\x1b' {
            for c2 in chars.by_ref() {
                if c2 == 'm' {
                    break;
                }
            }
        } else {
            out.push(c);
        }
    }
    out
}

fn table_fixture() -> Value {
    Value::List(vec![
        Value::record(vec![
            ("text".to_string(), Value::Str("Rust language".into())),
            ("stars".to_string(), Value::Int(95000)),
        ]),
        Value::record(vec![
            ("text".to_string(), Value::Str("WebAssembly".into())),
            ("stars".to_string(), Value::Int(12345)),
            ("extra".to_string(), Value::Str("only here".into())),
        ]),
    ])
}

#[test]
fn table_renders_box_drawing_and_union_columns() {
    let out = strip_ansi(&render(&table_fixture(), 80));
    assert!(out.contains('┌') && out.contains('┘'));
    assert!(out.contains("text"));
    assert!(out.contains("stars"));
    assert!(out.contains("extra"), "union of keys:\n{out}");
    assert!(out.contains("Rust language"));
}

#[test]
fn narrow_width_truncates_with_ellipsis() {
    let out = strip_ansi(&render(&table_fixture(), 24));
    assert!(out.contains('…'), "expected truncation:\n{out}");
    for line in out.lines() {
        assert!(
            UnicodeWidthStr::width(line) <= 26,
            "line too wide: {line}"
        );
    }
}

#[test]
fn scalar_list_renders_indexed() {
    let v = Value::List(vec![Value::Str("a".into()), Value::Str("b".into())]);
    let out = strip_ansi(&render(&v, 80));
    assert!(out.contains("0  a"));
    assert!(out.contains("1  b"));
}

#[test]
fn record_renders_key_value() {
    let v = Value::record(vec![
        ("name".to_string(), Value::Str("bterm".into())),
        ("panes".to_string(), Value::Int(2)),
    ]);
    let out = strip_ansi(&render(&v, 80));
    assert!(out.contains("name   bterm"));
    assert!(out.contains("panes  2"));
}

#[test]
fn scalars_render_plainly() {
    assert_eq!(strip_ansi(&render(&Value::Int(42), 80)), "42\n");
    assert_eq!(strip_ansi(&render(&Value::Str("hi".into()), 80)), "hi\n");
    assert_eq!(strip_ansi(&render(&Value::Null, 80)), "null\n");
}

#[test]
fn escape_injection_is_stripped() {
    // A Str value must not be able to inject ANSI into the terminal.
    let v = Value::Str("evil\x1b[2Jwiped".into());
    let out = render(&v, 80);
    assert!(!out.contains("\x1b[2J"), "ESC must be stripped: {out:?}");
    assert!(out.contains("evilwiped") || out.contains("evil"), "{out:?}");
}

#[test]
fn whole_escape_sequences_go_not_just_the_esc_byte() {
    // Stripping only ESC would leave the body behind, as literal `[1m` litter.
    let v = Value::Str("\x1b[1mbold\x1b[0m plain".into());
    let out = strip_ansi(&render(&v, 80));
    assert_eq!(out, "bold plain\n", "no leftover [1m litter: {out:?}");
}

#[test]
fn osc_and_two_char_escapes_are_stripped() {
    // OSC can set the window title / clipboard in some terminals.
    let v = Value::Str("a\x1b]0;pwned\x07b\x1bcc".into());
    let out = strip_ansi(&render(&v, 80));
    assert_eq!(out, "abc\n", "got {out:?}");
}

#[test]
fn dcs_apc_pm_sos_bodies_are_fully_dropped() {
    // These string-type escapes take an arbitrary-length body (e.g. a
    // Sixel image in a DCS). The old generic two-char-escape branch only
    // ate the introducer, leaving the payload as visible garbage.
    let v = Value::Str("a\x1bPsixel-junk\x1b\\b\x1b_apc-junk\x07c\x1b^pm-junk\x1b\\d\x1bXsos-junk\x1b\\e".into());
    let out = strip_ansi(&render(&v, 80));
    assert_eq!(out, "abcde\n", "got {out:?}");
}

#[test]
fn escapes_in_table_cells_do_not_skew_column_width() {
    // A colored cell must not count its escape bytes as visible width.
    let v = Value::List(vec![Value::record(vec![
        ("a".to_string(), Value::Str("\x1b[31mred\x1b[0m".into())),
    ])]);
    let out = strip_ansi(&render(&v, 80));
    let widths: Vec<usize> = out
        .lines()
        .map(UnicodeWidthStr::width)
        .collect();
    assert!(
        widths.windows(2).all(|w| w[0] == w[1]),
        "table rows must line up: {widths:?}\n{out}"
    );
}

#[test]
fn newlines_in_cells_do_not_break_table_geometry() {
    let v = Value::List(vec![Value::record(vec![
        ("a".to_string(), Value::Str("line1\nline2".into())),
        ("b".to_string(), Value::Int(1)),
    ])]);
    let out = strip_ansi(&render(&v, 80));
    // Header + rules + exactly one data row.
    let data_rows = out.lines().filter(|l| l.contains("line1")).count();
    assert_eq!(data_rows, 1);
    assert!(out.contains("line1 line2"), "newline flattened: {out}");
}

#[test]
fn empty_records_render_placeholder_not_degenerate_box() {
    let v = Value::List(vec![
        Value::record(vec![]),
        Value::record(vec![]),
    ]);
    let out = strip_ansi(&render(&v, 80));
    assert!(out.contains("(2 empty records)"), "{out}");
    assert!(!out.contains('┌'));
}

#[test]
fn diagnostic_text_is_stripped_to_one_line() {
    // A page-controlled diagnostic must not be able to clear the screen
    // or smuggle colour codes into our styling.
    let hostile = "\x1b[2J\x1b[Hcleared\nsecond line";
    assert_eq!(diagnostic_text(hostile), "cleared second line");
}

#[test]
fn writer_text_keeps_only_current_line_sequences() {
    // Allowed: everything here can only affect the line being written.
    assert_eq!(writer_text("50%\r"), "50%\r");
    assert_eq!(writer_text("ab\x08"), "ab\x08");
    assert_eq!(writer_text("\x1b[5Cx"), "\x1b[5Cx");
    assert_eq!(writer_text("\x1b[3Dx"), "\x1b[3Dx");
    assert_eq!(writer_text("a\x1b[K"), "a\x1b[K");
    assert_eq!(writer_text("a\x1b[2K"), "a\x1b[2K");
    assert_eq!(writer_text("\x1b[31mred\x1b[0m"), "\x1b[31mred\x1b[0m");
}

#[test]
fn writer_text_strips_everything_that_escapes_the_line() {
    // Cursor up/down would overwrite the prompt or another command's
    // output; absolute positioning goes anywhere on screen.
    assert_eq!(writer_text("\x1b[Aup"), "up");
    assert_eq!(writer_text("\x1b[2Bdown"), "down");
    assert_eq!(writer_text("\x1b[3;4Hxy"), "xy");
    assert_eq!(writer_text("\x1b[10fxy"), "xy");
    // Clearing the screen, and the cursor report -- which injects text
    // into the INPUT stream, not the output.
    assert_eq!(writer_text("\x1b[2Jgone"), "gone");
    assert_eq!(writer_text("\x1b[6nprobe"), "probe");
    // Save/restore escapes the line boundary when paired with a move.
    assert_eq!(writer_text("\x1b[sx\x1b[u"), "x");
    // Private-mode sequences (hide cursor) are not on the allowlist.
    assert_eq!(writer_text("\x1b[?25lhidden"), "hidden");
    // String-type escapes: title-setting, clipboard, Sixel payloads.
    assert_eq!(writer_text("\x1b]0;title\x07after"), "after");
    assert_eq!(writer_text("\x1bPq#0;2;0;0#0~~@@\x1b\\tail"), "tail");
    assert_eq!(writer_text("\x1b_apc\x1b\\z"), "z");
    // A lone ESC, and a two-char escape.
    assert_eq!(writer_text("a\x1b"), "a");
    assert_eq!(writer_text("a\x1b7b"), "ab");
}

#[test]
fn writer_text_keeps_newlines_but_drops_other_controls() {
    // A writer may legitimately emit newlines (line mode appends one);
    // other C0 controls are not on the allowlist.
    assert_eq!(writer_text("a\nb"), "a\nb");
    assert_eq!(writer_text("a\x07b"), "ab");
    assert_eq!(writer_text("a\x00b"), "ab");
}

#[test]
fn writer_text_handles_unterminated_and_malformed_escapes() {
    // An unterminated CSI consumes to the end rather than emitting a
    // partial sequence that a terminal might complete with later text.
    assert_eq!(writer_text("a\x1b[31"), "a");
    assert_eq!(writer_text("a\x1b["), "a");
    // An unterminated string escape swallows its body (no litter).
    assert_eq!(writer_text("a\x1b]0;never-ends"), "a");
    // An SGR with a huge/odd param list is still just styling.
    assert_eq!(writer_text("\x1b[1;38;5;196mx\x1b[0m"), "\x1b[1;38;5;196mx\x1b[0m");
}

fn rec(id: i64) -> Value {
    Value::record(vec![("id".to_string(), Value::Int(id))])
}

fn push(r: &mut StreamRenderer, row: Value) -> Option<String> {
    settle(|replies| r.push(row.clone(), replies))
}

#[test]
fn commits_after_probe_rows_and_streams_the_rest() {
    // Probe = 2 rows: the first buffers silently, the second triggers a
    // commit that paints the header plus both probed rows. Later rows
    // stream one at a time at the committed widths.
    let mut r = StreamRenderer::new(80, 2);
    assert_eq!(push(&mut r, rec(1)), None, "still probing");
    let committed = push(&mut r, rec(2)).expect("commit on 2nd row");
    assert!(committed.contains("id"), "header painted: {committed:?}");
    assert!(committed.contains('1') && committed.contains('2'), "probe rows: {committed:?}");

    let third = push(&mut r, rec(3)).expect("streamed row");
    assert!(third.contains('3'));
    assert!(!third.contains("id"), "header not repainted: {third:?}");

    let end = settle(|x| r.finish(x));
    assert!(!end.is_empty(), "bottom border painted: {end:?}");
}

#[test]
fn commit_forces_paint_with_fewer_than_probe_rows() {
    // A slow source: only one row arrived before the host's deadline.
    // commit() paints using widths from just that row.
    let mut r = StreamRenderer::new(80, 50);
    assert_eq!(push(&mut r, rec(7)), None);
    let out = settle(|x| r.commit(x)).expect("forced commit");
    assert!(out.contains('7'), "the probed row painted: {out:?}");
    assert!(push(&mut r, rec(8)).expect("streams after commit").contains('8'));
}

#[test]
fn empty_stream_paints_nothing() {
    // No rows ever arrived: an empty table is meaningless, so nothing is
    // painted rather than a zero-column header.
    let mut r = StreamRenderer::new(80, 50);
    assert_eq!(settle(|x| r.commit(x)), None, "nothing to commit");
    assert_eq!(settle(|x| r.finish(x)), String::new());
}

#[test]
fn a_full_probe_matches_render_table_exactly() {
    // When every row arrives inside the probe, the streamed
    // output must be byte-identical to rendering the whole list at once.
    let rows = vec![rec(1), rec(2), rec(3)];
    let mut r = StreamRenderer::new(80, 50);
    let mut streamed = String::new();
    for row in &rows {
        if let Some(text) = push(&mut r, row.clone()) {
            streamed.push_str(&text);
        }
    }
    streamed.push_str(&settle(|x| r.finish(x)));
    assert_eq!(streamed, render(&Value::List(rows), 80));
}
