//! The line transform: prefixes, chunk boundaries, and the writer.

use std::time::Instant;

use rtss::writer::render_chunk;
use rtss::{Format, RtssWriter};

/// Render a whole input delivered as the given chunks, threading the
/// line-start state through, with one fixed prefix for every line start.
fn render_split(chunks: &[&[u8]], prefix: &[u8]) -> (Vec<u8>, bool, bool) {
    let mut out = Vec::new();
    let mut at_eol = true;
    let mut saw_any = false;
    for chunk in chunks {
        let (piece, state, saw) = render_chunk(chunk, at_eol, prefix, prefix);
        out.extend_from_slice(&piece);
        at_eol = state;
        saw_any = saw_any || saw;
    }
    (out, at_eol, saw_any)
}

#[test]
fn render_prefixes_each_line() {
    let (out, at_eol, saw) = render_chunk(b"ab\ncd\n", true, b"<P>", b"<Q>");
    assert_eq!(out, b"<P>ab\n<Q>cd\n");
    assert!(at_eol);
    assert!(saw);
}

#[test]
fn render_trailing_fragment_gets_one_prefix() {
    let (out, at_eol, saw) = render_chunk(b"ab\ncd", true, b"<P>", b"<Q>");
    assert_eq!(out, b"<P>ab\n<Q>cd");
    assert!(!at_eol);
    assert!(saw);
}

#[test]
fn render_mid_line_continues_without_prefix() {
    let (out, at_eol, saw) = render_chunk(b"tail\n", false, b"<P>", b"<Q>");
    assert_eq!(out, b"tail\n");
    assert!(at_eol);
    assert!(saw);
}

#[test]
fn render_first_prefix_after_resumed_line() {
    // A call that begins mid-line still uses the first-call prefix for
    // the first line start it reaches.
    let (out, _, _) = render_chunk(b"end\nnew", false, b"<P>", b"<Q>");
    assert_eq!(out, b"end\n<P>new");
}

#[test]
fn render_empty_chunk_is_no_op() {
    let (out, at_eol, saw) = render_chunk(b"", true, b"<P>", b"<Q>");
    assert_eq!(out, b"");
    assert!(at_eol);
    assert!(!saw);
    let (out2, at_eol2, saw2) = render_chunk(b"", false, b"<P>", b"<Q>");
    assert_eq!(out2, b"");
    assert!(!at_eol2);
    assert!(!saw2);
}

#[test]
fn render_newline_only() {
    let (out, at_eol, saw) = render_chunk(b"\n", true, b"<P>", b"<Q>");
    assert_eq!(out, b"<P>\n");
    assert!(at_eol);
    assert!(saw);
}

#[test]
fn chunk_boundaries_do_not_matter() {
    // Two complete lines plus an unterminated fragment, delivered in
    // every possible two-chunk split: same output, same final state,
    // exactly three prefixes, and no byte dropped or duplicated.
    let input: &[u8] = b"one\ntwo\nthree";
    let prefix: &[u8] = b"#";
    let (whole, state, saw) = render_split(&[input], prefix);
    assert_eq!(whole.iter().filter(|&&b| b == b'#').count(), 3);
    assert_eq!(
        whole.iter().filter(|&&b| b != b'#').copied().collect::<Vec<u8>>(),
        input.to_vec()
    );
    assert_eq!(whole.len(), input.len() + 3);
    for cut in 0..=input.len() {
        let (a, b) = input.split_at(cut);
        let (out, st, sw) = render_split(&[a, b], prefix);
        assert_eq!(out, whole, "split at {}", cut);
        assert_eq!(st, state);
        assert_eq!(sw, saw);
    }
}

#[test]
fn chunk_boundaries_do_not_matter_three_ways() {
    let input: &[u8] = b"a\n\nbb\nc";
    let prefix: &[u8] = b"~";
    let (whole, _, _) = render_split(&[input], prefix);
    // Four line starts: three completed lines (one empty) and a fragment.
    assert_eq!(whole.iter().filter(|&&b| b == b'~').count(), 4);
    for i in 0..=input.len() {
        for j in i..=input.len() {
            let (out, _, _) = render_split(&[&input[..i], &input[i..j], &input[j..]], prefix);
            assert_eq!(out, whole, "split at {} and {}", i, j);
        }
    }
}

#[test]
fn writer_prefixes_once_across_chunks() {
    // Two chunks, one line: the prefix appears once, at first-byte
    // arrival, not again at the chunk boundary.
    let mut sink: Vec<u8> = Vec::new();
    let mut writer = RtssWriter::new(&mut sink, Format::Human, '|', Instant::now());
    assert_eq!(writer.write(b"Hello").unwrap(), 5);
    assert_eq!(writer.write(b", World!\n").unwrap(), 9);
    drop(writer);
    let text = String::from_utf8(sink).expect("prefixed output is text here");
    assert!(text.ends_with("| Hello, World!\n"), "got {:?}", text);
    assert_eq!(text.matches("Hello").count(), 1);
    assert_eq!(text.matches('|').count(), 1);
    assert_eq!(text.matches('\n').count(), 1);
    // Two right-justified eight-character fields and the separator.
    let fields: &str = &text[..text.find('|').unwrap()];
    assert_eq!(fields.chars().count(), 18);
}

#[test]
fn writer_prefixes_every_line() {
    let mut sink: Vec<u8> = Vec::new();
    let mut writer = RtssWriter::new(&mut sink, Format::Sortable, '#', Instant::now());
    writer.write(b"a\nb\n").unwrap();
    drop(writer);
    let text = String::from_utf8(sink).unwrap();
    assert_eq!(text.matches('#').count(), 2);
    assert_eq!(text.matches('\n').count(), 2);
    // Sortable fields are fixed width at 15 characters, wider than the
    // 8-character justification, so every prefix is 15 + 1 + 15 + 3 = 34
    // characters and each line is prefix + content.
    let lines: Vec<&str> = text.split_inclusive('\n').collect();
    assert_eq!(lines.len(), 2);
    assert!(lines[0].ends_with("# a\n"));
    assert!(lines[1].ends_with("# b\n"));
    assert_eq!(lines[0].chars().count(), 36);
    assert_eq!(lines[1].chars().count(), 36);
}

#[test]
fn writer_empty_write_emits_nothing() {
    let mut sink: Vec<u8> = Vec::new();
    let mut writer = RtssWriter::new(&mut sink, Format::Human, '|', Instant::now());
    assert_eq!(writer.write(b"").unwrap(), 0);
    drop(writer);
    assert!(sink.is_empty());
}

struct FailingSink;

impl std::io::Write for FailingSink {
    fn write(&mut self, _buf: &[u8]) -> std::io::Result<usize> {
        Err(std::io::Error::from_raw_os_error(32))
    }

    fn flush(&mut self) -> std::io::Result<()> {
        Ok(())
    }
}

#[test]
fn writer_surfaces_sink_failure() {
    let mut writer = RtssWriter::new(FailingSink, Format::Human, '|', Instant::now());
    let err = writer.write(b"boom\n").unwrap_err();
    assert_eq!(err.os_code, Some(32));
    assert!(!err.interrupted);
    assert_eq!(err.origin, rtss::FailureOrigin::Write);
    assert!(!err.message.is_empty());
}

#[test]
fn writer_flush_passes_through() {
    let mut sink: Vec<u8> = Vec::new();
    let mut writer = RtssWriter::new(&mut sink, Format::Human, '|', Instant::now());
    assert!(writer.flush().is_ok());
}
