use bterm::editor::LineEditor;

fn strip_ansi(s: &str) -> String {
    let mut out = String::new();
    let mut chars = s.chars().peekable();
    while let Some(c) = chars.next() {
        if c == '\x1b' {
            if chars.peek() == Some(&'[') {
                chars.next();
                for c2 in chars.by_ref() {
                    if (0x40..=0x7e).contains(&(c2 as u32)) {
                        break;
                    }
                }
            }
        } else {
            out.push(c);
        }
    }
    out
}

fn line(ed: &LineEditor) -> String {
    // Rebuild the visible line from a redraw.
    strip_ansi(&ed.prompt_line()).replace('\r', "")
}

#[test]
fn typing_appends_and_submits() {
    let mut ed = LineEditor::new();
    let fx = ed.feed("echo hi");
    assert_eq!(fx.echo, "echo hi");
    assert!(fx.submitted.is_empty());
    let fx = ed.feed("\r");
    assert_eq!(fx.submitted, vec!["echo hi".to_string()]);
    assert!(fx.echo.contains("\r\n"));
    assert_eq!(ed.history(), &vec!["echo hi".to_string()]);
}

#[test]
fn backspace_and_cursor_edit() {
    let mut ed = LineEditor::new();
    ed.feed("hxi");
    ed.feed("\x1b[D"); // left, cursor between x and i
    ed.feed("\x7f"); // delete the x
    let fx = ed.feed("\r");
    assert_eq!(fx.submitted, vec!["hi".to_string()]);
}

#[test]
fn insert_mid_line_redraws() {
    let mut ed = LineEditor::new();
    ed.feed("ac");
    ed.feed("\x1b[D");
    let fx = ed.feed("b");
    assert!(fx.echo.contains("abc"), "redraw shows full line: {:?}", fx.echo);
    let fx = ed.feed("\r");
    assert_eq!(fx.submitted, vec!["abc".to_string()]);
}

#[test]
fn home_end_ctrl_a_e() {
    let mut ed = LineEditor::new();
    ed.feed("world");
    ed.feed("\x01"); // C-a
    ed.feed("hello ");
    ed.feed("\x05"); // C-e
    ed.feed("!");
    let fx = ed.feed("\r");
    assert_eq!(fx.submitted, vec!["hello world!".to_string()]);
}

#[test]
fn kill_line_and_word() {
    let mut ed = LineEditor::new();
    ed.feed("one two three");
    ed.feed("\x17"); // C-w kills "three"
    let fx = ed.feed("\r");
    assert_eq!(fx.submitted, vec!["one two ".to_string()]);

    let mut ed = LineEditor::new();
    ed.feed("scrap this");
    ed.feed("\x15"); // C-u kills everything before cursor
    let fx = ed.feed("\r");
    assert_eq!(fx.submitted, vec!["".to_string()]);
}

#[test]
fn history_navigation_with_stash() {
    let mut ed = LineEditor::new();
    ed.feed("first\r");
    ed.feed("second\r");
    ed.feed("draft");
    ed.feed("\x1b[A"); // -> second
    assert_eq!(line(&ed), "❯ second");
    ed.feed("\x1b[A"); // -> first
    assert_eq!(line(&ed), "❯ first");
    ed.feed("\x1b[B"); // -> second
    ed.feed("\x1b[B"); // -> draft restored
    assert_eq!(line(&ed), "❯ draft");
}

#[test]
fn duplicate_history_collapsed_and_capped() {
    let mut ed = LineEditor::new();
    ed.feed("same\r");
    ed.feed("same\r");
    assert_eq!(ed.history().len(), 1);
    for i in 0..250 {
        ed.feed(&format!("cmd {i}\r"));
    }
    assert_eq!(ed.history().len(), 200);
    assert_eq!(ed.history()[0], "cmd 50");
}

#[test]
fn ctrl_c_cancels_line_and_flags() {
    let mut ed = LineEditor::new();
    ed.feed("doomed");
    let fx = ed.feed("\x03");
    assert!(fx.ctrl_c);
    assert!(fx.echo.contains("^C"));
    let fx = ed.feed("\r");
    assert_eq!(fx.submitted, vec!["".to_string()]);
}

#[test]
fn bracketed_paste_inserts_without_executing() {
    let mut ed = LineEditor::new();
    let fx = ed.feed("\x1b[200~rm -rf /\nrm again\x1b[201~");
    assert!(fx.submitted.is_empty(), "paste must not submit");
    let fx = ed.feed("\r");
    assert_eq!(fx.submitted, vec!["rm -rf / rm again".to_string()]);
}

#[test]
fn bracketed_paste_split_across_chunks() {
    let mut ed = LineEditor::new();
    let fx = ed.feed("\x1b[200~part one ");
    assert!(fx.submitted.is_empty());
    let fx = ed.feed("part two\x1b[201");
    assert!(fx.submitted.is_empty());
    let fx = ed.feed("~");
    assert!(fx.submitted.is_empty());
    let fx = ed.feed("\r");
    assert_eq!(fx.submitted, vec!["part one part two".to_string()]);
}

#[test]
fn split_escape_sequence_across_chunks() {
    let mut ed = LineEditor::new();
    ed.feed("ab");
    ed.feed("\x1b");
    ed.feed("[D"); // completes Left
    ed.feed("X");
    let fx = ed.feed("\r");
    assert_eq!(fx.submitted, vec!["aXb".to_string()]);
}

#[test]
fn crlf_is_one_submit() {
    let mut ed = LineEditor::new();
    let fx = ed.feed("hi\r\n");
    assert_eq!(fx.submitted, vec!["hi".to_string()]);
}

#[test]
fn multiple_submits_in_one_chunk() {
    let mut ed = LineEditor::new();
    let fx = ed.feed("a\rb\r");
    assert_eq!(fx.submitted, vec!["a".to_string(), "b".to_string()]);
}

#[test]
fn wide_chars_cursor_math() {
    let mut ed = LineEditor::new();
    ed.feed("日本");
    ed.feed("\x1b[D");
    let redraw = ed.prompt_line();
    // Tail is one double-width char → cursor moves back 2 columns.
    assert!(redraw.ends_with("\x1b[2D"), "got {redraw:?}");
}

#[test]
fn prompt_color_tracks_status() {
    let mut ed = LineEditor::new();
    assert!(ed.prompt().contains("32m"));
    ed.set_last_status(false);
    assert!(ed.prompt().contains("31m"));
}

#[test]
fn as_many_steps_down_as_up_restore_the_draft() {
    let mut ed = LineEditor::default();
    for submitted in ["one\r", "two\r", "three\r"] {
        ed.feed(submitted);
    }
    let history = ed.history().clone();
    for steps in 0..6 {
        ed.feed("dra\x1b[D");
        for _ in 0..steps {
            ed.feed("\x1b[A");
        }
        for _ in 0..steps {
            ed.feed("\x1b[B");
        }
        assert_eq!(ed.history(), &history);
        // Typing goes to the end of the draft once it was put away.
        let fx = ed.feed("X\r");
        let expected = if steps == 0 { "drXa" } else { "draX" };
        assert_eq!(fx.submitted, vec![expected.to_string()]);
        ed = LineEditor::default();
        for submitted in ["one\r", "two\r", "three\r"] {
            ed.feed(submitted);
        }
    }
}

#[test]
fn without_a_history_no_step_shows() {
    let mut ed = LineEditor::default();
    ed.feed("draft");
    assert_eq!(ed.feed("\x1b[A").echo, "");
    assert_eq!(ed.feed("\x1b[B").echo, "");
    assert_eq!(ed.feed("\r").submitted, vec!["draft".to_string()]);
}

#[test]
fn a_default_editor_is_a_new_one() {
    let (a, b) = (LineEditor::default(), LineEditor::new());
    assert_eq!(a.prompt_line(), b.prompt_line());
    assert_eq!(a.history(), b.history());
}
