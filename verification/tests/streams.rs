//! Channels, flattening and collecting, and the rounds of a pipeline.

use bterm::ast::{Call, Expr};
use bterm::ask::{Query, Replies};
use bterm::builtins::register_all;
use bterm::chan::{channel, Received, Sent};
use bterm::eval::{LineRun, Turn};
use bterm::expr::Scope;
use bterm::parse::parse;
use bterm::pipeline::{Env, PipelineRun, Round, Stage, STAGE_BUFFER};
use bterm::registry::{CommandRegistry, PipelineData};
use bterm::signature::Signature;
use bterm::stream::{collect, flatten};
use bterm::value::Value;

fn whole(n: i64) -> PipelineData {
    PipelineData::Value(Value::Int(n))
}

fn received(r: Received) -> Option<Value> {
    match r {
        Received::Item(d) => Some(d.into_value()),
        Received::Waiting => panic!("the channel is empty but open"),
        Received::Ended => None,
    }
}

fn sent_through(items: Vec<PipelineData>) -> Vec<Value> {
    let mut ch = channel(8);
    for d in items {
        assert!(matches!(ch.send(d), Sent::Taken));
    }
    ch.drop_sender();
    let mut seen = Vec::new();
    while let Some(v) = received(ch.recv()) {
        seen.push(v);
    }
    seen
}

#[test]
fn flatten_sends_list_elements_as_separate_items() {
    let list = Value::List(vec![Value::Int(1), Value::Int(2), Value::Int(3)]);
    let seen = sent_through(flatten(PipelineData::Value(list)));
    assert_eq!(seen, vec![Value::Int(1), Value::Int(2), Value::Int(3)]);
}

#[test]
fn flatten_is_one_level_only() {
    let nested = Value::List(vec![
        Value::List(vec![Value::Int(1), Value::Int(2)]),
        Value::List(vec![Value::Int(3)]),
    ]);
    let count = sent_through(flatten(PipelineData::Value(nested))).len();
    assert_eq!(count, 2, "outer list flattens; inner lists stay whole");
}

#[test]
fn flatten_scalar_and_empty() {
    let mut items = flatten(whole(5));
    items.extend(flatten(PipelineData::Empty));
    assert_eq!(sent_through(items), vec![Value::Int(5)]);
}

#[test]
fn collect_gathers_items_back() {
    let collected = collect(sent_through(vec![whole(1), whole(2)]));
    assert_eq!(collected.into_value(), Value::List(vec![Value::Int(1), Value::Int(2)]));
}

#[test]
fn collect_single_item_is_not_wrapped() {
    assert_eq!(collect(sent_through(vec![whole(7)])).into_value(), Value::Int(7));
}

#[test]
fn collect_empty_stream_is_empty() {
    assert!(matches!(collect(sent_through(vec![])), PipelineData::Empty));
}

#[test]
fn items_arrive_in_order_then_the_stream_ends() {
    let mut ch = channel(4);
    assert!(matches!(ch.send(whole(1)), Sent::Taken), "send 1");
    assert!(matches!(ch.send(whole(2)), Sent::Taken), "send 2");
    ch.drop_sender();
    assert_eq!(received(ch.recv()), Some(Value::Int(1)));
    assert_eq!(received(ch.recv()), Some(Value::Int(2)));
    // Sender dropped and buffer drained: end of stream, not pending.
    assert_eq!(received(ch.recv()), None);
    assert!(ch.has_ended());
}

#[test]
fn capacity_is_a_real_bound() {
    let mut ch = channel(2);
    assert!(matches!(ch.send(whole(1)), Sent::Taken), "send 1");
    assert!(matches!(ch.send(whole(2)), Sent::Taken), "send 2");
    // The buffer holds exactly `capacity`; this is the bounded-memory
    // guarantee, so assert on it rather than trusting the constant.
    assert_eq!(ch.len(), 2);
    assert_eq!(received(ch.recv()), Some(Value::Int(1)));
    assert_eq!(ch.len(), 1);
}

#[test]
fn dropping_the_receiver_tells_the_producer_to_stop() {
    // This is the mechanism behind `head 5` terminating an infinite source:
    // the consumer goes away and the next send fails.
    let mut ch = channel(4);
    assert!(matches!(ch.send(whole(1)), Sent::Taken), "first send");
    ch.drop_receiver();
    assert!(ch.is_closed());
    assert!(matches!(ch.send(whole(2)), Sent::Closed));
}

#[test]
fn a_send_into_a_full_buffer_does_not_complete() {
    let mut ch = channel(1);
    assert!(matches!(ch.send(whole(1)), Sent::Taken), "first send fills the buffer");
    assert_eq!(ch.len(), 1);
    match ch.send(whole(2)) {
        Sent::Full(back) => assert_eq!(back.into_value(), Value::Int(2)),
        other => panic!("a full buffer must park the sender, not grow: {other:?}"),
    }
    assert_eq!(ch.len(), 1, "the bound was exceeded");
    assert!(!ch.is_open());
    assert!(ch.peek().is_some());
}

fn builtins() -> CommandRegistry {
    let mut registry = CommandRegistry::new();
    register_all(&mut registry);
    registry
}

fn calls(src: &str) -> Vec<Call> {
    let mut out = parse(src, &Replies::new()).expect("no floats here");
    assert!(out.errors.is_empty(), "{:?}", out.errors);
    out.line.pipelines.remove(0).calls
}

/// Two host commands that never finish by themselves, and what they were handed.
fn two_outside_stages() -> (CommandRegistry, PipelineRun) {
    let mut registry = builtins();
    registry.register_external(Signature::build("a", "yields"), 1).expect("a");
    registry.register_external(Signature::build("b", "yields"), 2).expect("b");
    let run = PipelineRun::new(calls("a | b"));
    (registry, run)
}

#[test]
fn every_stage_runs_to_completion() {
    let registry = builtins();
    let scope = Scope::new();
    let replies = Replies::new();
    let env = Env { registry: &registry, scope: &scope, width: 80, replies: &replies };
    let mut run = PipelineRun::new(calls("echo 1 2 3 | map {|x| $x} | length"));
    let mut rounds = 0;
    while !run.is_finished() {
        match run.round(&env) {
            Round::Over { moved } => assert!(moved, "a round that moves nothing would hang"),
            Round::Need(q) => panic!("nothing to ask: {q:?}"),
        }
        rounds += 1;
        assert!(rounds < 100);
    }
    assert!(run.stages.iter().all(|s| matches!(s, Stage::Done)));
    assert_eq!(run.out.len(), 1);
    assert_eq!(run.out.remove(0).into_value(), Value::Int(3));
}

#[test]
fn stages_interleave_rather_than_running_one_at_a_time() {
    // Both host commands start before either ends, and what the first one sends
    // reaches the second while the first is still running.
    let (registry, mut run) = two_outside_stages();
    let scope = Scope::new();
    let replies = Replies::new();
    let env = Env { registry: &registry, scope: &scope, width: 80, replies: &replies };
    run.round(&env);
    assert!(matches!(&run.stages[0], Stage::Outside(1, _)));
    assert!(matches!(&run.stages[1], Stage::Outside(2, _)));
    assert!(matches!(run.outside_send(0, whole(1)), Sent::Taken));
    assert_eq!(received(run.outside_recv(1)), Some(Value::Int(1)));
    assert!(matches!(run.outside_recv(1), Received::Waiting));
    assert!(matches!(run.outside_send(0, whole(2)), Sent::Taken));
    assert_eq!(received(run.outside_recv(1)), Some(Value::Int(2)));
    run.outside_finish(0, None);
    assert!(matches!(run.outside_recv(1), Received::Ended));
    run.outside_finish(1, None);
    assert!(run.is_finished());
}

#[test]
fn a_producer_is_held_at_the_stage_buffer() {
    let (registry, mut run) = two_outside_stages();
    let scope = Scope::new();
    let replies = Replies::new();
    let env = Env { registry: &registry, scope: &scope, width: 80, replies: &replies };
    run.round(&env);
    let mut taken = 0;
    while let Sent::Taken = run.outside_send(0, whole(taken)) {
        taken += 1;
    }
    assert_eq!(taken as usize, STAGE_BUFFER);
}

#[test]
fn a_line_reports_each_pipeline_in_turn() {
    let registry = builtins();
    let scope = Scope::new();
    let replies = Replies::new();
    let env = Env { registry: &registry, scope: &scope, width: 80, replies: &replies };
    let out = parse("echo a; echo b | str upcase", &replies).expect("no floats here");
    let mut line = LineRun::new(out.line.pipelines);
    loop {
        match line.advance(&env) {
            Turn::Moved => {}
            Turn::Complete => line.record_collected(),
            Turn::Written => panic!("no redirect"),
            Turn::Over => break,
            Turn::Waiting => panic!("nothing outside to wait for"),
            Turn::Need(Query::History) => panic!("no history asked for"),
            Turn::Need(q) => panic!("no answer to {q:?}"),
        }
    }
    assert!(line.error.is_none());
    let values: Vec<Value> = line.results.into_iter().map(PipelineData::into_value).collect();
    assert_eq!(values, vec![Value::Str("a".into()), Value::Str("B".into())]);
}

#[test]
fn a_literal_keeps_its_place_in_the_line() {
    let line = calls("echo 12");
    match &line[0].args[0] {
        bterm::ast::Arg::Positional(Expr::Literal(v, span)) => {
            assert_eq!(*v, Value::Int(12));
            assert_eq!((span.start, span.end), (5, 7));
        }
        other => panic!("unexpected arg: {other:?}"),
    }
}
