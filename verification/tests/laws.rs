//! What holds of the library as a whole, on chosen values.

use bterm::ask::Replies;
use bterm::ast::Spanned;
use bterm::builtins::register_all;
use bterm::builtins::Builtin;
use bterm::editor::LineEditor;
use bterm::engine::crlf;
use bterm::error::{ErrorKind, ShellError, Span};
use bterm::execute::{begin_line, Begun};
use bterm::float::Float;
use bterm::lex::{is_valid_var_name, lex};
use bterm::mux::keys::keymap;
use bterm::mux::Mux;
use bterm::parse::parse;
use bterm::pipeline::Stage;
use bterm::registry::{Command, CommandRegistry};
use bterm::render::{diagnostic_text, plain, sanitize, writer_text};
use bterm::signature::Signature;
use bterm::value::Value;
use std::cmp::Ordering;

fn float(f: f64) -> Float {
    Float { bits: f.to_bits() }
}

fn builtins() -> CommandRegistry {
    let mut registry = CommandRegistry::new();
    register_all(&mut registry);
    registry
}

fn words(s: &str) -> Vec<String> {
    s.split(' ').map(|w| w.to_string()).collect()
}

#[test]
fn every_key_binding_is_a_shell_command() {
    let registry = builtins();
    let keys = [
        "%", "\"", "c", "n", "p", "x", "o", "ArrowLeft", "ArrowRight", "ArrowUp", "ArrowDown",
        "z", "(", ")", "s", "d",
    ];
    for key in keys {
        let line = keymap(key).unwrap_or_else(|| panic!("`{key}` is bound"));
        match begin_line(line, &Replies::new()) {
            Ok(Begun::Running(run)) => match &run.run.stages[0] {
                Stage::Waiting(call) => {
                    let head: Vec<String> = call.words.iter().map(|w| w.node.clone()).collect();
                    assert!(registry.lookup(&head).is_some(), "`{line}` is a command");
                }
                _ => panic!("`{line}` waits to run"),
            },
            _ => panic!("`{line}` parses"),
        }
    }
}

#[test]
fn the_longest_command_name_wins() {
    let mut registry = builtins();
    registry.register_external(Signature::build("str", "a shorter name"), 9).expect("free");
    let (entry, used) = registry.lookup(&words("str upcase hello")).expect("found");
    assert_eq!((entry.command, used), (Command::Builtin(Builtin::StrUpcase), 2));
    let (entry, used) = registry.lookup(&words("str hello")).expect("found");
    assert_eq!((entry.command, used), (Command::External(9), 1));
    assert!(registry.lookup(&words("hello str")).is_none());
    let names = registry.names();
    assert!(names.windows(2).all(|w| w[0] <= w[1]), "names are listed in order");
}

#[test]
fn an_unknown_command_is_named_in_its_error() {
    let word = |s: &str| Spanned { node: s.to_string(), span: Span::new(0, s.len() as u32) };
    let e = builtins().unknown_command_error(&vec![word("ehco")]);
    assert_eq!(e.kind, ErrorKind::UnknownCommand);
    assert_eq!(e.msg, "unknown command `ehco`");
    assert_eq!(e.help.as_deref(), Some("did you mean `echo`?"));
    assert_eq!(e.span, Some(Span::new(0, 4)));
}

#[test]
fn line_ends_are_converted_once() {
    assert_eq!(crlf("a\nb\r\nc\rd"), "a\r\nb\r\nc\rd");
    assert_eq!(crlf(&crlf("a\nb\r\nc\rd")), crlf("a\nb\r\nc\rd"));
    assert_eq!(crlf(""), "");
}

#[test]
fn sanitizing_twice_changes_nothing() {
    for s in ["\x1b[31mred\x1b[0m", "a\x1b]0;t\x07b", "tail\x1b[", "x\ny", "日本\x1b7語"] {
        assert_eq!(diagnostic_text(&diagnostic_text(s)), diagnostic_text(s));
        assert_eq!(sanitize(&sanitize(s)), sanitize(s));
        assert_eq!(writer_text(&writer_text(s)), writer_text(s));
    }
}

#[test]
fn integers_and_floats_compare_by_value() {
    let big = 9_007_199_254_740_993_i64;
    // The nearest float of 2^53 + 1 is 2^53.
    assert!(Value::Int(big).loose_eq(&Value::Float(float(9_007_199_254_740_992.0))));
    assert!(!Value::Int(1).loose_eq(&Value::Float(float(1.5))));
    assert_eq!(
        Value::Float(float(f64::NAN)).partial_cmp_values(&Value::Int(1)),
        None,
        "not a number has no place among numbers"
    );
    assert_eq!(
        Value::Float(float(-0.0)).partial_cmp_values(&Value::Int(0)),
        Some(Ordering::Equal)
    );
    assert_eq!(
        Value::Int(i64::MIN).partial_cmp_values(&Value::Float(float(f64::NEG_INFINITY))),
        Some(Ordering::Greater)
    );
    assert_eq!(Value::Str("a".into()).partial_cmp_values(&Value::Int(1)), None);
    assert!(Value::List(vec![Value::Float(float(f64::INFINITY))]).has_non_finite());
    assert!(!Value::List(vec![Value::Float(float(1.0))]).has_non_finite());
}

#[test]
fn mixed_values_have_one_order() {
    let sorted = [
        Value::Int(1),
        Value::Float(float(1.5)),
        Value::Int(2),
        Value::Str("a".into()),
        Value::Str("b".into()),
        Value::Bool(false),
        Value::Bool(true),
        Value::Null,
    ];
    for i in 0..sorted.len() {
        for j in 0..sorted.len() {
            assert_eq!(
                sorted[i].total_cmp_values(&sorted[j]),
                i.cmp(&j),
                "{:?} against {:?}",
                sorted[i],
                sorted[j]
            );
        }
    }
}

#[test]
fn numbers_sort_by_their_exact_values() {
    let whole = 9_007_199_254_740_992_i64;
    let sorted = [
        Value::Float(float(f64::NEG_INFINITY)),
        Value::Int(i64::MIN),
        Value::Int(-1),
        Value::Float(float(-0.5)),
        Value::Int(0),
        Value::Float(float(5e-324)),
        Value::Int(whole - 1),
        Value::Float(float(whole as f64)),
        Value::Int(whole + 1),
        Value::Int(whole + 2),
        Value::Int(i64::MAX - 1),
        Value::Int(i64::MAX),
        Value::Float(float(9_223_372_036_854_775_808.0)),
        Value::Float(float(f64::INFINITY)),
        Value::Float(float(f64::NAN)),
    ];
    for i in 0..sorted.len() {
        for j in 0..sorted.len() {
            assert_eq!(
                sorted[i].total_cmp_values(&sorted[j]),
                i.cmp(&j),
                "{:?} against {:?}",
                sorted[i],
                sorted[j]
            );
        }
    }
    assert_eq!(Value::Float(float(-0.0)).total_cmp_values(&Value::Int(0)), Ordering::Equal);
    assert_eq!(Value::Int(whole).total_cmp_values(&Value::Float(float(whole as f64))), Ordering::Equal);
}

#[test]
fn fields_keep_their_order() {
    let mut fields = bterm::value::Fields::new();
    for (name, n) in [("a", 1), ("b", 2), ("c", 3), ("d", 4), ("b", 5)] {
        fields.insert(name.to_string(), Value::Int(n));
    }
    let listed = |f: &bterm::value::Fields| -> Vec<(String, Value)> {
        (0..f.len()).map(|i| (f.name(i).clone(), f.at(i).clone())).collect()
    };
    let named = |names: &[(&str, i64)]| -> Vec<(String, Value)> {
        names.iter().map(|(k, n)| (k.to_string(), Value::Int(*n))).collect()
    };
    assert_eq!(listed(&fields), named(&[("a", 1), ("b", 5), ("c", 3), ("d", 4)]));
    assert_eq!(fields.find("c"), Some(2));
    assert_eq!(fields.find("z"), None);
    assert_eq!(fields.get("b"), Some(&Value::Int(5)));
    let copy = fields.clone();
    assert_eq!(fields.remove("b"), Some(Value::Int(5)));
    assert_eq!(fields.remove("b"), None);
    assert_eq!(listed(&fields), named(&[("a", 1), ("c", 3), ("d", 4)]));
    assert_eq!(listed(&copy), named(&[("a", 1), ("b", 5), ("c", 3), ("d", 4)]));
}

#[test]
fn the_double_of_an_integer_is_the_nearest() {
    for n in [
        0,
        1,
        -1,
        9_007_199_254_740_991,
        9_007_199_254_740_993,
        9_007_199_254_740_995,
        -9_007_199_254_740_993,
        i64::MAX,
        i64::MIN,
        4_611_686_018_427_388_417,
    ] {
        assert_eq!(bterm::float::from_int(n), float(n as f64), "{n}");
    }
}

#[test]
fn cutting_the_input_anywhere_changes_nothing() {
    let input = "echo hi\x1b[D\x1b[D!\x7f日本\x1b[200~a\nb\x1b[201~\rnext\x17x\r";
    let mut whole = LineEditor::new();
    let fx = whole.feed(input);
    let cuts: Vec<usize> = input.char_indices().map(|(i, _)| i).collect();
    for cut in cuts {
        let mut parts = LineEditor::new();
        let first = parts.feed(&input[..cut]);
        let second = parts.feed(&input[cut..]);
        assert_eq!(first.echo + &second.echo, fx.echo, "cut at {cut}");
        let submitted: Vec<String> = first.submitted.into_iter().chain(second.submitted).collect();
        assert_eq!(submitted, fx.submitted, "cut at {cut}");
        assert_eq!(parts.prompt_line(), whole.prompt_line());
        assert_eq!(parts.history(), whole.history());
    }
}

#[test]
fn every_diagnostic_of_a_line_can_be_drawn() {
    for src in ["échô &", "日本 ) ; 'ü", "map {|é| $é.", "\"\\q", "--", "$", "é --=", "1.2.3 (", "{"] {
        match parse(src, &Replies::new()) {
            Ok(out) => {
                for e in &out.errors {
                    assert!(e.is_drawable(src), "{src}: {e:?}");
                    assert!(e.render(src).contains('^'));
                }
            }
            Err(_) => assert!(src.contains('.'), "only floats are asked for"),
        }
    }
}

#[test]
fn carets_stand_under_their_span() {
    let e = ShellError::parse("bad", Span::new(6, 9));
    // Two characters of two columns each, then the span.
    let drawn = e.render("日本abc");
    assert!(drawn.contains("\n        \x1b[31m^^^\x1b[0m\n"), "{drawn:?}");
    let e = ShellError::new(ErrorKind::Type, "no place");
    assert_eq!(e.render("x"), "\x1b[1;31merror:\x1b[0m no place\n");
}

#[test]
fn spans_follow_each_other() {
    let src = "héllo | get  'wörld' --all;x";
    let tokens = lex(src, &Replies::new()).expect("no floats here");
    assert!(tokens.len() > 5);
    assert!(tokens.windows(2).all(|w| w[0].span.end <= w[1].span.start));
    assert!(tokens.iter().all(|t| t.span.end as usize <= src.len()));
}

#[test]
fn a_merged_span_covers_both() {
    let a = Span::new(3, 5);
    let b = Span::new(8, 9);
    assert_eq!(a.merge(b), Span::new(3, 9));
    assert_eq!(b.merge(a), Span::new(3, 9));
    assert_eq!(a.merge(a), a);
}

#[test]
fn variable_names_are_those_the_lexer_reads() {
    for good in ["a", "_", "1", "café", "snake_case"] {
        assert!(is_valid_var_name(good), "{good}");
    }
    for bad in ["", "a b", "a-b", "$a", "a.b"] {
        assert!(!is_valid_var_name(bad), "{bad}");
    }
}

#[test]
fn closing_the_first_of_three_windows_keeps_the_others_in_order() {
    let mut mux = Mux::new();
    let first = mux.active_pane();
    let (second, _) = mux.new_window();
    let (third, _) = mux.new_window();
    mux.cycle_window(true);
    assert_eq!(mux.active_pane(), first);
    let out = mux.kill_active_pane(&Replies::new()).expect("one pane needs no arithmetic");
    assert_eq!(out.closed_panes, vec![first]);
    let here = mux.active_pane();
    assert!(here == second || here == third);
    mux.cycle_window(true);
    mux.cycle_window(true);
    assert_eq!(mux.active_pane(), here, "two windows are left");
}

#[test]
fn bytes_are_values_of_their_own() {
    let bytes = Value::Bytes(vec![0, 128, 255]);
    assert_eq!(bytes.type_label(), "bytes");
    assert_eq!(bytes.clone(), bytes);
    assert_ne!(bytes, Value::Bytes(vec![0, 128]));
    assert_ne!(bytes, Value::Bytes(vec![0, 128, 254]));
    assert_ne!(bytes, Value::List(vec![Value::Int(0), Value::Int(128), Value::Int(255)]));
    assert_eq!(plain(&bytes, &Replies::new()).expect("no floats here"), "[3 bytes]");
    assert_eq!(bytes.partial_cmp_values(&Value::Bytes(vec![])), None);
    assert_eq!(bytes.total_cmp_values(&Value::Str("z".into())), Ordering::Greater);
    assert_eq!(bytes.total_cmp_values(&Value::Null), Ordering::Less);
}
