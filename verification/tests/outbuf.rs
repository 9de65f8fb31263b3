use bterm::outbuf::{Mode, OutputBuffer, BLOCK_LIMIT};

#[test]
fn line_mode_flushes_on_the_delimiter() {
    let mut b = OutputBuffer::new();
    assert_eq!(b.write("no newline yet"), None);
    assert_eq!(b.write(" then\none"), Some("no newline yet then\n".to_string()));
    // The remainder stays buffered until the next delimiter or the end.
    assert_eq!(b.finish(), Some("one".to_string()));
}

#[test]
fn line_mode_flushes_through_the_last_delimiter_only() {
    // Two complete lines plus a partial tail: the complete lines go now,
    // the tail waits -- that is what keeps a half-written line off screen.
    let mut b = OutputBuffer::new();
    assert_eq!(b.write("a\nb\ntail"), Some("a\nb\n".to_string()));
    assert_eq!(b.finish(), Some("tail".to_string()));
}

#[test]
fn the_line_delimiter_is_configurable() {
    // Null-delimited framing, the `find -print0` idiom.
    let mut b = OutputBuffer::new();
    b.set_mode(Mode::Line, Some("\0".to_string()));
    assert_eq!(b.write("a\nstill buffered"), None, "\\n is not the delimiter now");
    assert_eq!(b.write("\0rest"), Some("a\nstill buffered\0".to_string()));
}

#[test]
fn byte_mode_flushes_every_write() {
    let mut b = OutputBuffer::new();
    b.set_mode(Mode::Byte, None);
    assert_eq!(b.write("5"), Some("5".to_string()));
    assert_eq!(b.write("0%\r"), Some("0%\r".to_string()));
    assert_eq!(b.finish(), None, "nothing left buffered");
}

#[test]
fn block_mode_holds_until_flushed() {
    let mut b = OutputBuffer::new();
    b.set_mode(Mode::Block, None);
    assert_eq!(b.write("a\nb\nc\n"), None, "newlines do not flush in block mode");
    assert_eq!(b.flush(), Some("a\nb\nc\n".to_string()));
    assert_eq!(b.flush(), None, "nothing left to flush");
}

#[test]
fn block_mode_flushes_when_the_buffer_fills() {
    // A runaway command must not buffer without bound.
    let mut b = OutputBuffer::new();
    b.set_mode(Mode::Block, None);
    let big = "x".repeat(BLOCK_LIMIT + 10);
    let flushed = b.write(&big).expect("a full buffer flushes itself");
    assert_eq!(flushed.len(), big.len(), "everything buffered so far is flushed");
}

#[test]
fn nothing_is_lost_when_a_command_ends_without_flushing() {
    // The invariant: whatever mode, a command that just returns still
    // gets its buffered output.
    for mode in [Mode::Line, Mode::Byte, Mode::Block] {
        let mut b = OutputBuffer::new();
        b.set_mode(mode, None);
        b.write("tail with no delimiter");
        let expected = if mode == Mode::Byte {
            None
        } else {
            Some("tail with no delimiter".to_string())
        };
        assert_eq!(b.finish(), expected, "mode {mode:?} lost its tail");
    }
}

#[test]
fn switching_modes_does_not_drop_buffered_text() {
    // A command may set a mode after writing. Whatever is pending must
    // survive the switch rather than vanishing.
    let mut b = OutputBuffer::new();
    assert_eq!(b.write("pending"), None);
    b.set_mode(Mode::Byte, None);
    assert_eq!(b.write("!"), Some("pending!".to_string()));
}

#[test]
fn line_mode_is_bounded_when_the_delimiter_never_arrives() {
    // `line` is the DEFAULT mode, and text with no delimiter in it (a minified
    // JSON body, a `\r` progress bar) must not grow the buffer without limit.
    //
    // Asserting the bound rather than a wall-clock time is deliberate:
    // the bound is what makes the work bounded. With `buf` held under
    // `BLOCK_LIMIT`, a write's scan window is at most its own text plus
    // the leftover, so cost is linear in output rather than quadratic --
    // and unlike a timing threshold this cannot go flaky in CI.
    let mut b = OutputBuffer::new();
    let chunk = "x".repeat(1024);
    let writes = 64;
    let mut emitted = 0usize;
    for _ in 0..writes {
        if let Some(out) = b.write(&chunk) {
            emitted += out.len();
            assert!(out.len() <= 2 * BLOCK_LIMIT, "a single flush ran away: {}", out.len());
        }
    }
    let held = b.finish().map(|s| s.len()).unwrap_or(0);
    assert!(
        held < BLOCK_LIMIT,
        "{held} bytes still held with no delimiter in sight; the bound is {BLOCK_LIMIT}"
    );
    assert_eq!(emitted + held, writes * chunk.len(), "output was lost, not just bounded");
}

#[test]
fn one_oversized_write_is_emitted_whole_rather_than_buffered() {
    // The limit is checked before the append, so a write bigger than it
    // never lands in the buffer. Observable here as the
    // buffer keeping nothing back -- not even the partial tail line
    // mode would normally hold.
    let mut b = OutputBuffer::new();
    let big = format!("{}\ntail", "x".repeat(BLOCK_LIMIT));
    let out = b.write(&big).expect("an oversized write flushes straight through");
    assert_eq!(out.len(), big.len(), "the whole write was emitted");
    assert_eq!(b.finish(), None, "none of it was retained");
}

#[test]
fn a_multibyte_delimiter_split_across_writes_is_still_found() {
    // The scan window starts `delimiter.len() - 1` bytes before the
    // join, walked back to a char boundary -- so a delimiter straddling
    // two writes is found, and the walk-back never slices mid-character.
    let mut b = OutputBuffer::new();
    b.set_mode(Mode::Line, Some("日本".to_string()));
    assert_eq!(b.write("x日"), None, "half a delimiter is not a delimiter");
    assert_eq!(b.write("本y"), Some("x日本".to_string()));
    // Now with a longer multi-byte prefix, so the overlap start lands
    // mid-character and has to walk back.
    assert_eq!(b.write("語彙"), None);
    assert_eq!(b.write("日本z"), Some("y語彙日本".to_string()));
    assert_eq!(b.finish(), Some("z".to_string()));
}

#[test]
fn a_new_delimiter_rescans_what_is_already_buffered() {
    // The scan watermark is per-delimiter: changing it mid-stream must
    // not leave an already-buffered match unseen.
    let mut b = OutputBuffer::new();
    assert_eq!(b.write("a|b"), None, "\\n is the delimiter so far");
    b.set_mode(Mode::Line, Some("|".to_string()));
    assert_eq!(b.write("c"), Some("a|".to_string()));
    assert_eq!(b.finish(), Some("bc".to_string()));
}

#[test]
fn a_multibyte_line_splits_on_a_char_boundary() {
    // rfind returns a byte index; splitting after a complete delimiter
    // match is always a char boundary, even when the line is full of
    // multi-byte text. A regression here would panic, not fail softly.
    let mut b = OutputBuffer::new();
    assert_eq!(b.write("日本語\n█▓░"), Some("日本語\n".to_string()));
    assert_eq!(b.finish(), Some("█▓░".to_string()));
}

#[test]
fn no_mode_holds_the_limit() {
    for mode in [Mode::Line, Mode::Byte, Mode::Block] {
        let mut b = OutputBuffer::default();
        b.set_mode(mode, Some("!".to_string()));
        let piece = "x".repeat(1000);
        let mut held = 0;
        for _ in 0..50 {
            match b.write(&piece) {
                Some(out) => {
                    assert_eq!(out.len(), held + piece.len(), "all of it goes at once");
                    held = 0;
                }
                None => held += piece.len(),
            }
            assert!(held < BLOCK_LIMIT);
        }
        assert_eq!(b.finish().unwrap_or_default().len(), held);
        assert_eq!(b.finish(), None);
    }
}
