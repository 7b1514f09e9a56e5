//! The pump, the exit-code decisions, and the summary lines.

use std::io::Read;
use std::time::Instant;

use rtss::exit::{
    child_exit_code, copy_error_exit_code, filter_summary_line, should_report_stdout_error,
    summary_prefix,
};
use rtss::{line_timing_copy, Dur, FailureOrigin, Format, RtssWriter};

/// A reader that hands out the given chunks one per call, then reports
/// end-of-stream.
struct ScriptedReader {
    chunks: Vec<Vec<u8>>,
    next: usize,
    interruptions: usize,
}

impl Read for ScriptedReader {
    fn read(&mut self, buf: &mut [u8]) -> std::io::Result<usize> {
        if self.interruptions > 0 {
            self.interruptions -= 1;
            return Err(std::io::Error::from(std::io::ErrorKind::Interrupted));
        }
        if self.next >= self.chunks.len() {
            return Ok(0);
        }
        let chunk = &self.chunks[self.next];
        self.next += 1;
        buf[..chunk.len()].copy_from_slice(chunk);
        Ok(chunk.len())
    }
}

#[test]
fn pump_reports_total_bytes_and_prefixes_lines() {
    // Two lines from the source: the total is the sum of both lines'
    // byte lengths, and a zero child exit stays zero.
    let mut source = ScriptedReader {
        chunks: vec![b"line one\n".to_vec(), b"line two\n".to_vec()],
        next: 0,
        interruptions: 0,
    };
    let mut sink: Vec<u8> = Vec::new();
    let mut writer = RtssWriter::new(&mut sink, Format::Human, '|', Instant::now());
    let total = line_timing_copy(&mut source, &mut writer).unwrap();
    drop(writer);
    assert_eq!(total, 18);
    let text = String::from_utf8(sink).unwrap();
    assert_eq!(text.matches('|').count(), 2);
    assert!(text.contains("| line one\n"));
    assert!(text.contains("| line two\n"));
    assert_eq!(child_exit_code(Some(0)), 0);
}

#[test]
fn pump_retries_interrupted_reads() {
    let mut source = ScriptedReader {
        chunks: vec![b"data\n".to_vec()],
        next: 0,
        interruptions: 3,
    };
    let mut sink: Vec<u8> = Vec::new();
    let mut writer = RtssWriter::new(&mut sink, Format::Human, '|', Instant::now());
    let total = line_timing_copy(&mut source, &mut writer).unwrap();
    drop(writer);
    assert_eq!(total, 5);
    assert!(String::from_utf8(sink).unwrap().ends_with("| data\n"));
}

struct BrokenReader;

impl Read for BrokenReader {
    fn read(&mut self, _buf: &mut [u8]) -> std::io::Result<usize> {
        Err(std::io::Error::from_raw_os_error(5))
    }
}

#[test]
fn pump_surfaces_read_failure() {
    let mut sink: Vec<u8> = Vec::new();
    let mut writer = RtssWriter::new(&mut sink, Format::Human, '|', Instant::now());
    let err = line_timing_copy(&mut BrokenReader, &mut writer).unwrap_err();
    drop(writer);
    assert_eq!(err.os_code, Some(5));
    assert!(!err.interrupted);
    assert_eq!(err.origin, FailureOrigin::Read);
    assert!(sink.is_empty());
}

#[test]
fn pty_expected_eof_is_suppressed() {
    // In pty mode the master side's end-of-file error code on a normal
    // child exit is not reported as a stdout error.
    assert!(!should_report_stdout_error(true, Some(5)));
    assert!(should_report_stdout_error(true, Some(4)));
    assert!(should_report_stdout_error(true, None));
    assert!(should_report_stdout_error(false, Some(5)));
    assert!(should_report_stdout_error(false, None));
}

#[test]
fn exit_code_mirrors_child() {
    assert_eq!(child_exit_code(Some(0)), 0);
    assert_eq!(child_exit_code(Some(3)), 3);
    assert_eq!(child_exit_code(None), 64);
}

#[test]
fn exit_code_for_copy_errors() {
    assert_eq!(copy_error_exit_code(Some(32)), 96);
    assert_eq!(copy_error_exit_code(Some(0)), 64);
    assert_eq!(copy_error_exit_code(None), 64);
}

#[test]
fn summary_prefix_is_right_justified() {
    assert_eq!(summary_prefix(Format::Human, &Dur::new(1, 0)), "   1.00s    ");
    assert_eq!(
        summary_prefix(Format::Sortable, &Dur::new(1, 0)),
        "00:00:01.000000    "
    );
}

#[test]
fn filter_summary_lines() {
    assert_eq!(
        filter_summary_line(Format::Human, &Dur::new(0, 0), 0),
        "            exit code: 0"
    );
    assert_eq!(
        filter_summary_line(Format::Human, &Dur::new(2, 500_000_000), 96),
        "   2.50s    exit code: 96"
    );
    assert_eq!(
        filter_summary_line(Format::Human, &Dur::new(1, 0), -3),
        "   1.00s    exit code: -3"
    );
}
