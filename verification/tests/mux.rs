//! The multiplexer: sessions, windows, panes and their layout.

use bterm::ask::{FloatOp, Query, Replies, Reply};
use bterm::float::Float;
use bterm::mux::layout::Rect as Place;
use bterm::mux::share::Share;
use bterm::mux::tree::{Dir, PaneId};
use bterm::mux::{layout_window as place_window, FocusDir, Mux, MuxOutcome, Window};
use bterm::value::Value;

/// A rectangle in plain numbers.
#[derive(Clone, Copy, Debug, PartialEq)]
struct Rect {
    x: f32,
    y: f32,
    w: f32,
    h: f32,
}

const FULL: Rect = Rect { x: 0.0, y: 0.0, w: 1.0, h: 1.0 };

fn share(s: Share) -> f32 {
    f32::from_bits(s.bits)
}

fn float(f: f64) -> Float {
    Float { bits: f.to_bits() }
}

fn number(f: Float) -> f64 {
    f64::from_bits(f.bits)
}

fn compute(op: FloatOp, a: f64, b: f64) -> f64 {
    match op {
        FloatOp::Add => a + b,
        FloatOp::Sub => a - b,
        FloatOp::Mul => a * b,
        FloatOp::Div => a / b,
        FloatOp::Rem => a % b,
    }
}

fn json_of(v: &Value) -> serde_json::Value {
    match v {
        Value::Null => serde_json::Value::Null,
        Value::Bool(b) => serde_json::Value::Bool(*b),
        Value::Int(n) => serde_json::Value::from(*n),
        Value::Float(f) => serde_json::Value::from(number(*f)),
        Value::Str(s) => serde_json::Value::from(s.clone()),
        Value::Bytes(b) => serde_json::Value::from(b.as_slice()),
        Value::List(items) => serde_json::Value::Array(items.iter().map(json_of).collect()),
        Value::Record(fields) => {
            let mut out = serde_json::Map::new();
            for i in 0..fields.len() {
                out.insert(fields.name(i).clone(), json_of(fields.at(i)));
            }
            serde_json::Value::Object(out)
        }
    }
}

fn value_of(v: &serde_json::Value) -> Value {
    match v {
        serde_json::Value::Null => Value::Null,
        serde_json::Value::Bool(b) => Value::Bool(*b),
        serde_json::Value::Number(n) => match n.as_i64() {
            Some(i) => Value::Int(i),
            None => Value::Float(float(n.as_f64().unwrap_or(0.0))),
        },
        serde_json::Value::String(s) => Value::Str(s.clone()),
        serde_json::Value::Array(items) => Value::List(items.iter().map(value_of).collect()),
        serde_json::Value::Object(fields) => {
            Value::record(fields.iter().map(|(k, v)| (k.clone(), value_of(v))).collect())
        }
    }
}

/// What any program answers: arithmetic, texts of floats and JSON.
fn calculate(q: &Query) -> Reply {
    match q {
        Query::ParseFloat(s) => match s.parse::<f64>() {
            Ok(f) => Reply::Float(float(f)),
            Err(e) => Reply::Refused(e.to_string()),
        },
        Query::ShowFloat(f) => Reply::Text(number(*f).to_string()),
        Query::Compute(op, a, b) => Reply::Float(float(compute(*op, number(*a), number(*b)))),
        Query::Share(op, a, b) => {
            let (x, y) = (f32::from_bits(a.bits), f32::from_bits(b.bits));
            let z = match op {
                FloatOp::Add => x + y,
                FloatOp::Sub => x - y,
                FloatOp::Mul => x * y,
                FloatOp::Div => x / y,
                FloatOp::Rem => x % y,
            };
            Reply::Share(Share { bits: z.to_bits() })
        }
        Query::WriteJson(v, pretty) => {
            let json = json_of(v);
            let text = if *pretty {
                serde_json::to_string_pretty(&json)
            } else {
                serde_json::to_string(&json)
            };
            Reply::Text(text.expect("values serialize"))
        }
        Query::ReadJson(s) => match serde_json::from_str::<serde_json::Value>(s) {
            Ok(v) => Reply::Value(value_of(&v)),
            Err(e) => Reply::Refused(e.to_string()),
        },
        other => panic!("no answer to {other:?}"),
    }
}

fn settle<T>(mut f: impl FnMut(&Replies) -> Result<T, Query>) -> T {
    let mut replies = Replies::new();
    loop {
        match f(&replies) {
            Ok(v) => return v,
            Err(q) => {
                let r = calculate(&q);
                replies.add_reply(q, r);
            }
        }
    }
}

fn layout_window(window: &Window) -> Vec<(PaneId, Rect)> {
    let placed = settle(|r| place_window(window, Place::full(), r));
    placed
        .into_iter()
        .map(|(p, r)| (p, Rect { x: share(r.x), y: share(r.y), w: share(r.w), h: share(r.h) }))
        .collect()
}

fn kill(mux: &mut Mux) -> MuxOutcome {
    settle(|r| mux.kill_active_pane(r))
}

fn focus(mux: &mut Mux, dir: FocusDir) {
    settle(|r| mux.focus(dir, r));
}

fn resize(mux: &mut Mux, path: &[usize], fraction: f32) {
    settle(|r| mux.resize_split(path, Share { bits: fraction.to_bits() }, r));
}

fn assert_covers(rects: &[(PaneId, Rect)]) {
    let area: f32 = rects.iter().map(|(_, r)| r.w * r.h).sum();
    assert!((area - 1.0).abs() < 1e-4, "areas must sum to 1, got {area}");
    for (p, r) in rects {
        assert!(r.w > 0.0 && r.h > 0.0, "pane {p} has zero size: {r:?}");
    }
}

#[test]
fn new_mux_has_one_pane() {
    let mux = Mux::new();
    assert_eq!(mux.sessions.len(), 1);
    assert_eq!(mux.panes.len(), 1);
    let rects = layout_window(mux.active_window());
    assert_eq!(rects.len(), 1);
    assert_eq!(rects[0].1, FULL);
}

#[test]
fn split_right_then_down() {
    let mut mux = Mux::new();
    let first = mux.active_pane();
    let (second, out) = mux.split(Dir::Row);
    assert_eq!(out.opened_panes, vec![second]);
    assert_eq!(mux.active_pane(), second);

    let (third, _) = mux.split(Dir::Col);
    let rects = layout_window(mux.active_window());
    assert_eq!(rects.len(), 3);
    assert_covers(&rects);

    let find = |p: PaneId| rects.iter().find(|(q, _)| *q == p).map(|(_, r)| *r).expect("pane rect");
    assert_eq!(find(first), Rect { x: 0.0, y: 0.0, w: 0.5, h: 1.0 });
    assert_eq!(find(second), Rect { x: 0.5, y: 0.0, w: 0.5, h: 0.5 });
    assert_eq!(find(third), Rect { x: 0.5, y: 0.5, w: 0.5, h: 0.5 });
}

#[test]
fn kill_pane_collapses_and_refocuses() {
    let mut mux = Mux::new();
    let first = mux.active_pane();
    let (second, _) = mux.split(Dir::Row);
    let out = kill(&mut mux);
    assert_eq!(out.closed_panes, vec![second]);
    assert_eq!(mux.active_pane(), first);
    // Tree collapsed back to a single full-size leaf.
    let rects = layout_window(mux.active_window());
    assert_eq!(rects, vec![(first, FULL)]);
}

#[test]
fn killing_leaves_the_other_panes() {
    let mut mux = Mux::default();
    let first = mux.active_pane();
    let (second, _) = mux.split(Dir::Row);
    let (third, _) = mux.split(Dir::Col);
    let out = kill(&mut mux);
    assert_eq!(out.closed_panes, vec![third]);
    assert!(out.opened_panes.is_empty());
    let mut shown: Vec<PaneId> =
        layout_window(mux.active_window()).iter().map(|(p, _)| *p).collect();
    shown.sort();
    assert_eq!(shown, vec![first, second]);
    assert!(shown.contains(&mux.active_pane()));
    assert_eq!(mux.panes.len(), 2);
}

#[test]
fn killing_last_pane_recreates_a_session() {
    let mut mux = Mux::new();
    let out = kill(&mut mux);
    assert_eq!(out.closed_sessions.len(), 1);
    assert_eq!(out.opened_panes.len(), 1, "fresh session pane");
    assert_eq!(mux.sessions.len(), 1);
    assert_eq!(mux.panes.len(), 1);
}

#[test]
fn fractions_renormalize_after_kill() {
    let mut mux = Mux::new();
    mux.split(Dir::Row); // two panes 0.5/0.5
    mux.split(Dir::Row); // active split again: 0.5 / (0.25/0.25) nested
    kill(&mut mux);
    let rects = layout_window(mux.active_window());
    assert_eq!(rects.len(), 2);
    assert_covers(&rects);
}

#[test]
fn focus_next_cycles_and_directional_moves() {
    let mut mux = Mux::new();
    let first = mux.active_pane();
    let (second, _) = mux.split(Dir::Row);
    focus(&mut mux, FocusDir::Next);
    assert_eq!(mux.active_pane(), first);
    focus(&mut mux, FocusDir::Right);
    assert_eq!(mux.active_pane(), second);
    focus(&mut mux, FocusDir::Left);
    assert_eq!(mux.active_pane(), first);
    // No pane above: no-op.
    focus(&mut mux, FocusDir::Up);
    assert_eq!(mux.active_pane(), first);
}

#[test]
fn zoom_takes_full_rect_and_toggles() {
    let mut mux = Mux::new();
    let (second, _) = mux.split(Dir::Row);
    mux.toggle_zoom();
    let rects = layout_window(mux.active_window());
    assert_eq!(rects, vec![(second, FULL)]);
    mux.toggle_zoom();
    assert_eq!(layout_window(mux.active_window()).len(), 2);
}

#[test]
fn windows_cycle() {
    let mut mux = Mux::new();
    let pane_a = mux.active_pane();
    let (pane_b, _) = mux.new_window();
    assert_eq!(mux.active_pane(), pane_b);
    mux.cycle_window(true);
    assert_eq!(mux.active_pane(), pane_a);
    mux.cycle_window(false);
    assert_eq!(mux.active_pane(), pane_b);
}

#[test]
fn sessions_fork_switch_and_cycle() {
    let mut mux = Mux::new();
    let pane_main = mux.active_pane();
    let (pane_work, _) = mux.new_session(Some("work".to_string()));
    assert_ne!(pane_main, pane_work);
    assert_eq!(mux.active_pane(), pane_work);

    mux.switch_session("main").expect("switch by name");
    assert_eq!(mux.active_pane(), pane_main);
    assert!(mux.switch_session("nope").is_err());

    mux.cycle_session(true);
    assert_eq!(mux.active_pane(), pane_work);
}

#[test]
fn focus_pane_switches_session_and_window() {
    let mut mux = Mux::new();
    let pane_main = mux.active_pane();
    mux.new_session(Some("work".to_string()));
    let out = mux.focus_pane(pane_main);
    assert!(out.layout_changed);
    assert_eq!(mux.active_session().name, "main");
    assert_eq!(mux.active_pane(), pane_main);
}

#[test]
fn resize_split_moves_divider_with_clamp() {
    let mut mux = Mux::new();
    mux.split(Dir::Row);
    resize(&mut mux, &[0], 0.7);
    let rects = layout_window(mux.active_window());
    let widths: Vec<f32> = rects.iter().map(|(_, r)| r.w).collect();
    assert!((widths[0] - 0.7).abs() < 1e-4, "{widths:?}");
    assert_covers(&rects);

    // Clamped: can't crush a pane below 5%.
    resize(&mut mux, &[0], 0.999);
    let rects = layout_window(mux.active_window());
    assert!(rects.iter().all(|(_, r)| r.w >= 0.049), "{rects:?}");
}

#[test]
fn deep_nested_layout_stays_consistent() {
    let mut mux = Mux::new();
    for i in 0..6 {
        mux.split(if i % 2 == 0 { Dir::Row } else { Dir::Col });
    }
    let rects = layout_window(mux.active_window());
    assert_eq!(rects.len(), 7);
    assert_covers(&rects);
    // Kill everything; mux must survive with a fresh pane.
    for _ in 0..7 {
        kill(&mut mux);
    }
    assert_eq!(mux.panes.len(), 1);
}
