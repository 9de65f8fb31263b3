use bterm::sink::{wire_text, Channel, CollectingSink, NullSink, Record, Sink};

#[test]
fn collecting_sink_separates_channels() {
    let mut sink = CollectingSink::new();
    sink.write(Record::log("progress"));
    sink.write(Record::err("uh oh"));
    sink.write(Record::log("more"));

    assert_eq!(sink.log_lines(), vec!["progress", "more"]);
    assert_eq!(sink.err_lines(), vec!["uh oh"]);
}

#[test]
fn a_record_cannot_hold_an_escape_sequence() {
    // Diagnostics are page-controlled; the type, not the sink, is what
    // guarantees they are safe to hand to any destination.
    let r = Record::err("\x1b[2J\x1b[Hcleared\nsecond");
    assert_eq!(r.text(), "cleared second");
    assert_eq!(r.channel(), Channel::Error);
}

#[test]
fn a_raw_record_keeps_line_local_control_but_not_screen_control() {
    // Raw writes carry a progress bar's \r; the auto-sanitized path
    // strips everything.
    let raw = Record::raw_log("50%\r");
    assert_eq!(raw.text(), "50%\r");
    assert!(raw.is_raw());

    let cooked = Record::log("50%\r");
    assert_eq!(cooked.text(), "50% ", "a cooked line keeps no control");
    assert!(!cooked.is_raw());

    // Even raw text cannot clear the screen -- the allowlist decides,
    // not the caller.
    assert_eq!(Record::raw_err("\x1b[2Jx").text(), "x");
    assert!(Record::raw_err("x").is_raw());
}


#[test]
fn every_record_is_reset_prefixed_so_sgr_cannot_escape_into_the_shell() {
    // The CLI writes to the user's real terminal, so a command that
    // leaves conceal or a background colour set would follow bterm out
    // of the process. Raw records are the case that matters -- they are
    // the only ones that may carry SGR at all -- but the invariant is
    // unconditional so no future record type can slip through.
    let raw = wire_text(&Record::raw_log("\x1b[8mconceal"));
    assert!(raw.starts_with("\x1b[0m"), "raw record not reset-prefixed: {raw:?}");
    assert!(raw.ends_with("conceal"), "a partial write must stay partial: {raw:?}");

    let cooked = wire_text(&Record::log("plain"));
    assert_eq!(cooked, "\x1b[0mplain\n");

    assert!(wire_text(&Record::raw_err("\x1b[41m")).starts_with("\x1b[0m"));
    assert!(wire_text(&Record::err("boom")).starts_with("\x1b[0m"));
}

#[test]
fn sinks_without_backpressure_are_immediately_ready() {
    // The default: a sink that cannot fall behind is ready at once, so waiting
    // between paints costs nothing.
    let sink = CollectingSink::new();
    assert!(sink.ready());
    assert!(NullSink.ready());
}
