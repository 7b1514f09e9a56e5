//! Decisions the wrapper takes when a run ends.
//!
//! The wrapper's own exit code mirrors the child's; a child terminated by
//! a signal maps to a fixed fallback, and an I/O failure while copying
//! maps to 64 plus the OS error code.  In pty mode the read error the
//! master side reports on a normal child exit is expected and must not be
//! surfaced.  The summary line printed at the end opens with the elapsed
//! time right-justified to eight characters.

use vstd::prelude::*;
use vstd::string::StringExecFns;

use crate::duration::{dec_str, fmt_chars, fmt_counted, lemma_dec_str_len_u128, push_dec, Dur,
    Format};
use crate::writer::{append_pad8, pad8};

verus! {

/// The OS error code the pty master reports when the child exits
/// normally.
pub const PTY_NORMAL_EOF_CODE: i32 = 5;

/// The wrapper's exit code when the child was terminated by a signal, and
/// the base that I/O failure codes are added to.
pub const FALLBACK_EXIT_CODE: i32 = 64;

/// The wrapper's exit code in command mode: the child's own code, or the
/// fixed fallback when the child did not exit normally.
pub fn child_exit_code(code: Option<i32>) -> (r: i32)
    ensures
        r == match code {
            Some(c) => c,
            None => FALLBACK_EXIT_CODE,
        },
{
    match code {
        Some(c) => c,
        None => FALLBACK_EXIT_CODE,
    }
}

/// The wrapper's exit code after an I/O failure while copying: the
/// fallback base plus the OS error code, when the failure carried one.
pub fn copy_error_exit_code(os_code: Option<i32>) -> (r: i32)
    requires
        os_code matches Some(c) ==> c <= i32::MAX - FALLBACK_EXIT_CODE,
    ensures
        r == FALLBACK_EXIT_CODE + match os_code {
            Some(c) => c,
            None => 0i32,
        },
{
    match os_code {
        Some(c) => FALLBACK_EXIT_CODE + c,
        None => FALLBACK_EXIT_CODE,
    }
}

/// Whether a failure on the stream feeding standard output is reported:
/// everything is, except the pty master's expected end-of-file error
/// code in pty mode.
pub open spec fn report_stdout_error(pty_mode: bool, os_code: Option<i32>) -> bool {
    !pty_mode || (match os_code {
        Some(c) => c,
        None => 0i32,
    }) != PTY_NORMAL_EOF_CODE
}

/// Whether a read failure on the stream feeding standard output should
/// be reported: in pty mode the expected end-of-file error code of a
/// normally exiting child is suppressed, every other failure is reported.
pub fn should_report_stdout_error(pty_mode: bool, os_code: Option<i32>) -> (r: bool)
    ensures
        r == report_stdout_error(pty_mode, os_code),
{
    if !pty_mode {
        true
    } else {
        match os_code {
            Some(c) => c != PTY_NORMAL_EOF_CODE,
            None => true,
        }
    }
}

/// A failure on the stream feeding standard output is suppressed exactly
/// when the run is in pty mode and the failure carries the OS error code
/// the pty master reports on a normal child exit; every other failure,
/// in either mode, is reported.
pub proof fn lemma_pty_eof_suppression(pty_mode: bool, os_code: Option<i32>)
    ensures
        !report_stdout_error(pty_mode, os_code) <==> (pty_mode && os_code == Some(
            PTY_NORMAL_EOF_CODE,
        )),
{
}

/// The decimal rendering of a possibly negative number.
pub open spec fn int_str(n: int) -> Seq<char> {
    if n < 0 {
        seq!['-'] + dec_str(-n)
    } else {
        dec_str(n)
    }
}

/// The opening of the final summary line: the elapsed time
/// right-justified to eight characters, then four spaces.
pub fn summary_prefix(f: Format, d: &Dur) -> (r: String)
    requires
        d.wf(),
    ensures
        r@ == pad8(fmt_chars(f, *d)) + seq![' ', ' ', ' ', ' '],
{
    let (s, n) = fmt_counted(f, d);
    let mut r = String::new();
    append_pad8(&mut r, &s, n);
    r.append("    ");
    proof {
        reveal_strlit("    ");
        assert(r@ =~= pad8(fmt_chars(f, *d)) + seq![' ', ' ', ' ', ' ']);
    }
    r
}

/// The whole summary line printed in filter mode: the elapsed time, four
/// spaces, and the wrapper's exit code.
pub fn filter_summary_line(f: Format, d: &Dur, code: i32) -> (r: String)
    requires
        d.wf(),
    ensures
        r@ == pad8(fmt_chars(f, *d)) + seq![' ', ' ', ' ', ' '] + "exit code: "@ + int_str(
            code as int,
        ),
{
    let mut r = summary_prefix(f, d);
    r.append("exit code: ");
    let mut count: usize = 0;
    if code < 0 {
        r.append("-");
        let v: u64 = (-(code as i64)) as u64;
        proof {
            lemma_dec_str_len_u128(v as u128);
        }
        push_dec(&mut r, &mut count, v as u128);
        proof {
            reveal_strlit("exit code: ");
            reveal_strlit("-");
            assert("-"@ =~= seq!['-']);
            assert(int_str(code as int) =~= seq!['-'] + dec_str(v as int));
            assert(r@ =~= pad8(fmt_chars(f, *d)) + seq![' ', ' ', ' ', ' '] + "exit code: "@
                + int_str(code as int));
        }
    } else {
        proof {
            lemma_dec_str_len_u128(code as u128);
        }
        push_dec(&mut r, &mut count, code as u128);
        proof {
            reveal_strlit("exit code: ");
            assert(int_str(code as int) =~= dec_str(code as int));
            assert(r@ =~= pad8(fmt_chars(f, *d)) + seq![' ', ' ', ' ', ' '] + "exit code: "@
                + int_str(code as int));
        }
    }
    r
}

} // verus!
