//! Elapsed-time values and their two display forms.
//!
//! A [`Dur`] is a non-negative span of time held as whole seconds plus
//! sub-second nanoseconds, the plain values that the rest of the crate
//! reasons about.  [`DurationExt`] renders such a span either in the
//! variable-width human form (`1h2m3.45s`, `423.1ms`, `12.3μs`, or the empty
//! string for a negligible span) or in the fixed-width sortable form
//! (`HH:MM:SS.ffffff`).

use vstd::prelude::*;
use vstd::string::StringExecFns;

verus! {

/// A non-negative span of time: whole seconds and sub-second nanoseconds.
#[derive(Clone, Copy, PartialEq, Eq, Structural)]
pub struct Dur {
    pub secs: u64,
    pub nanos: u32,
}

impl Dur {
    /// A `Dur` is well formed when the nanosecond part is a proper
    /// sub-second remainder.
    pub open spec fn wf(self) -> bool {
        self.nanos < 1_000_000_000
    }

    /// Build a span from whole seconds and sub-second nanoseconds.
    pub fn new(secs: u64, nanos: u32) -> (r: Dur)
        requires
            nanos < 1_000_000_000,
        ensures
            r == (Dur { secs, nanos }),
            r.wf(),
    {
        Dur { secs, nanos }
    }
}

/// The decimal digit character for `d`, for `0 <= d <= 9`.
pub open spec fn digit(d: int) -> char {
    if d == 0 {
        '0'
    } else if d == 1 {
        '1'
    } else if d == 2 {
        '2'
    } else if d == 3 {
        '3'
    } else if d == 4 {
        '4'
    } else if d == 5 {
        '5'
    } else if d == 6 {
        '6'
    } else if d == 7 {
        '7'
    } else if d == 8 {
        '8'
    } else {
        '9'
    }
}

/// The decimal rendering of `n`, without padding.
pub open spec fn dec_str(n: int) -> Seq<char>
    decreases n,
{
    if n < 10 {
        seq![digit(n)]
    } else {
        dec_str(n / 10) + seq![digit(n % 10)]
    }
}

/// Append the digit character for `d` to `s` and count it.
fn push_digit(s: &mut String, count: &mut usize, d: u8)
    requires
        d < 10,
        *old(count) < usize::MAX,
    ensures
        final(s)@ == old(s)@ + seq![digit(d as int)],
        *final(count) == *old(count) + 1,
{
    let lit: &str = if d == 0 {
        "0"
    } else if d == 1 {
        "1"
    } else if d == 2 {
        "2"
    } else if d == 3 {
        "3"
    } else if d == 4 {
        "4"
    } else if d == 5 {
        "5"
    } else if d == 6 {
        "6"
    } else if d == 7 {
        "7"
    } else {
        "8"
    };
    let lit: &str = if d == 9 {
        "9"
    } else {
        lit
    };
    proof {
        reveal_strlit("0");
        reveal_strlit("1");
        reveal_strlit("2");
        reveal_strlit("3");
        reveal_strlit("4");
        reveal_strlit("5");
        reveal_strlit("6");
        reveal_strlit("7");
        reveal_strlit("8");
        reveal_strlit("9");
        assert(lit@ =~= seq![digit(d as int)]);
    }
    s.append(lit);
    *count = *count + 1;
}

/// `10^k`.
pub open spec fn pow10(k: nat) -> int
    decreases k,
{
    if k == 0 {
        1
    } else {
        10 * pow10((k - 1) as nat)
    }
}

pub proof fn lemma_pow10_pos(k: nat)
    ensures
        pow10(k) >= 1,
    decreases k,
{
    if k > 0 {
        lemma_pow10_pos((k - 1) as nat);
    }
}

/// A number below `10^k` renders in at most `k` digits.
pub proof fn lemma_dec_str_len(n: int, k: nat)
    requires
        0 <= n < pow10(k),
        k >= 1,
    ensures
        1 <= dec_str(n).len() <= k,
    decreases k,
{
    if n < 10 {
        assert(dec_str(n).len() == 1);
    } else {
        assert(pow10(k) == 10 * pow10((k - 1) as nat));
        assert(n / 10 < pow10((k - 1) as nat)) by (nonlinear_arith)
            requires
                n < 10 * pow10((k - 1) as nat),
                n >= 10,
        ;
        if k == 1 {
            lemma_pow10_pos(0);
            assert(false);
        }
        lemma_dec_str_len(n / 10, (k - 1) as nat);
        assert(dec_str(n).len() == dec_str(n / 10).len() + 1);
    }
}

/// Append the decimal rendering of `v` to `s` and count its digits.
pub(crate) fn push_dec(s: &mut String, count: &mut usize, v: u128)
    requires
        *old(count) + dec_str(v as int).len() <= usize::MAX,
    ensures
        final(s)@ == old(s)@ + dec_str(v as int),
        *final(count) == *old(count) + dec_str(v as int).len(),
    decreases v,
{
    if v < 10 {
        push_digit(s, count, v as u8);
    } else {
        proof {
            assert(dec_str(v as int).len() == dec_str(v as int / 10).len() + 1);
        }
        push_dec(s, count, v / 10);
        push_digit(s, count, (v % 10) as u8);
        proof {
            assert(final(s)@ =~= old(s)@ + dec_str(v as int));
        }
    }
}

/// The two-digit zero-padded rendering of `n`, for `0 <= n < 100`.
pub open spec fn dec2(n: int) -> Seq<char> {
    seq![digit(n / 10), digit(n % 10)]
}

/// The six-digit zero-padded rendering of `n`, for `0 <= n < 1_000_000`.
pub open spec fn dec6(n: int) -> Seq<char> {
    dec2(n / 10_000) + dec2((n / 100) % 100) + dec2(n % 100)
}

/// The rendering of `n` zero-padded to at least two digits.
pub open spec fn dec_min2(n: int) -> Seq<char> {
    if n < 100 {
        dec2(n)
    } else {
        dec_str(n)
    }
}

/// Sub-second nanoseconds rounded to whole centiseconds, halves up.
pub open spec fn centi_round(nanos: int) -> int {
    (nanos + 5_000_000) / 10_000_000
}

/// The whole seconds actually displayed: rounding the nanoseconds can
/// carry one second upward.
pub open spec fn human_total_secs(secs: int, nanos: int) -> int {
    if centi_round(nanos) == 100 {
        secs + 1
    } else {
        secs
    }
}

/// The centisecond field actually displayed: the rounded value, reset to
/// zero when rounding carried into the seconds.
pub open spec fn human_centi(nanos: int) -> int {
    if centi_round(nanos) == 100 {
        0
    } else {
        centi_round(nanos)
    }
}

/// The human display form of a span: unit-suffixed and variable width.
///
/// Spans of a second or more show days, hours and minutes when the whole
/// span reaches the unit, then seconds with two centisecond digits; the
/// centiseconds are rounded, carrying into the seconds at `.995` and above.
/// Sub-second spans show one decimal of milliseconds or of microseconds,
/// and a span of at most 100 nanoseconds shows nothing at all.
pub open spec fn human_chars(secs: int, nanos: int) -> Seq<char> {
    if secs > 0 {
        let ts = human_total_secs(secs, nanos);
        let cs = human_centi(nanos);
        let rem_d = if ts >= 86400 {
            ts % 86400
        } else {
            ts
        };
        let rem_h = if ts >= 3600 {
            rem_d % 3600
        } else {
            rem_d
        };
        let rem_m = if ts >= 60 {
            rem_h % 60
        } else {
            rem_h
        };
        (if ts >= 86400 {
            dec_str(ts / 86400) + seq!['d']
        } else {
            Seq::empty()
        }) + (if ts >= 3600 {
            dec_str(rem_d / 3600) + seq!['h']
        } else {
            Seq::empty()
        }) + (if ts >= 60 {
            dec_str(rem_h / 60) + seq!['m']
        } else {
            Seq::empty()
        }) + dec_str(rem_m) + seq!['.'] + dec2(cs) + seq!['s']
    } else if nanos > 100_000 {
        let t = (nanos + 50_000) / 100_000;
        dec_str(t / 10) + seq!['.', digit(t % 10), 'm', 's']
    } else if nanos > 100 {
        let t = (nanos + 50) / 100;
        dec_str(t / 10) + seq!['.', digit(t % 10), 'μ', 's']
    } else {
        Seq::empty()
    }
}

/// The sortable display form of a span: `HH:MM:SS.ffffff`, zero padded,
/// with microsecond precision.
pub open spec fn sortable_chars(secs: int, nanos: int) -> Seq<char> {
    dec_min2(secs / 3600) + seq![':'] + dec2((secs % 3600) / 60) + seq![':'] + dec2(secs % 60)
        + seq!['.'] + dec6(nanos / 1000)
}

/// Append `lit`, whose character count is `n`, to `s`.
fn push_lit(s: &mut String, count: &mut usize, lit: &str, n: usize)
    requires
        n == lit@.len(),
        *old(count) + n <= usize::MAX,
    ensures
        final(s)@ == old(s)@ + lit@,
        *final(count) == *old(count) + n,
{
    s.append(lit);
    *count = *count + n;
}

/// Append the two-digit rendering of `v` to `s`.
fn push_dec2(s: &mut String, count: &mut usize, v: u64)
    requires
        v < 100,
        *old(count) + 2 <= usize::MAX,
    ensures
        final(s)@ == old(s)@ + dec2(v as int),
        *final(count) == *old(count) + 2,
{
    push_digit(s, count, (v / 10) as u8);
    push_digit(s, count, (v % 10) as u8);
    proof {
        assert(final(s)@ =~= old(s)@ + dec2(v as int));
    }
}

/// Append the six-digit rendering of `v` to `s`.
fn push_dec6(s: &mut String, count: &mut usize, v: u32)
    requires
        v < 1_000_000,
        *old(count) + 6 <= usize::MAX,
    ensures
        final(s)@ == old(s)@ + dec6(v as int),
        *final(count) == *old(count) + 6,
{
    push_dec2(s, count, (v / 10_000) as u64);
    push_dec2(s, count, ((v / 100) % 100) as u64);
    push_dec2(s, count, (v % 100) as u64);
    proof {
        assert(final(s)@ =~= old(s)@ + dec6(v as int));
    }
}

/// Every `u128` renders in at most 39 digits.
pub(crate) proof fn lemma_dec_str_len_u128(v: u128)
    ensures
        1 <= dec_str(v as int).len() <= 39,
{
    assert(pow10(39) > u128::MAX as int) by {
        reveal_with_fuel(pow10, 40);
    };
    lemma_dec_str_len(v as int, 39);
}

/// Rounding a sub-second part of `.995` seconds or more carries into the
/// whole seconds and resets the centiseconds: such a span renders exactly
/// as the next whole second does.
pub proof fn lemma_centi_carry(secs: int, nanos: int)
    requires
        secs > 0,
        995_000_000 <= nanos < 1_000_000_000,
    ensures
        human_chars(secs, nanos) == human_chars(secs + 1, 0),
{
    assert(centi_round(nanos) == 100);
    assert(centi_round(0) == 0);
}

/// The centisecond field of the human form never reaches 100, so a
/// rendering such as `1.100s` cannot occur.
pub proof fn lemma_centi_field_in_range(nanos: int)
    requires
        0 <= nanos < 1_000_000_000,
    ensures
        0 <= human_centi(nanos) < 100,
{
    assert(0 <= centi_round(nanos) <= 100);
}

/// A span of zero magnitude, or of at most 100 nanoseconds, renders as
/// the empty human string.
pub proof fn lemma_human_negligible(secs: int, nanos: int)
    requires
        secs == 0,
        0 <= nanos <= 100,
    ensures
        human_chars(secs, nanos) == Seq::<char>::empty(),
{
}

/// A type whose value is an elapsed span renderable in the two display
/// forms.
pub trait DurationExt {
    /// The whole seconds of the span.
    spec fn dur_secs(&self) -> int;

    /// The sub-second nanoseconds of the span.
    spec fn dur_nanos(&self) -> int;

    /// Render the span for human consumption.
    fn human_string(&self) -> (r: String)
        requires
            0 <= self.dur_secs(),
            0 <= self.dur_nanos() < 1_000_000_000,
        ensures
            r@ == human_chars(self.dur_secs(), self.dur_nanos()),
    ;

    /// Render the span in the fixed-width lexicographically sortable form.
    fn sortable_string(&self) -> (r: String)
        requires
            0 <= self.dur_secs(),
            0 <= self.dur_nanos() < 1_000_000_000,
        ensures
            r@ == sortable_chars(self.dur_secs(), self.dur_nanos()),
    ;
}

impl Dur {
    /// Render the human form together with its character count.
    #[verifier::rlimit(60)]
    pub(crate) fn human_counted(&self) -> (r: (String, usize))
        requires
            self.wf(),
        ensures
            r.0@ == human_chars(self.secs as int, self.nanos as int),
            r.1 == r.0@.len(),
    {
        let mut s = String::new();
        let mut count: usize = 0;
        let ns = self.nanos;
        if self.secs > 0 {
            let cs0: u32 = (ns + 5_000_000) / 10_000_000;
            let ts: u128 = if cs0 == 100 {
                self.secs as u128 + 1
            } else {
                self.secs as u128
            };
            let cs: u32 = if cs0 == 100 {
                0
            } else {
                cs0
            };
            proof {
                reveal_strlit("d");
                reveal_strlit("h");
                reveal_strlit("m");
                reveal_strlit(".");
                reveal_strlit("s");
            }
            if ts >= 86400 {
                proof {
                    lemma_dec_str_len_u128(ts / 86400);
                }
                push_dec(&mut s, &mut count, ts / 86400);
                push_lit(&mut s, &mut count, "d", 1);
            }
            let rem_d: u128 = if ts >= 86400 {
                ts % 86400
            } else {
                ts
            };
            if ts >= 3600 {
                proof {
                    lemma_dec_str_len_u128(rem_d / 3600);
                }
                push_dec(&mut s, &mut count, rem_d / 3600);
                push_lit(&mut s, &mut count, "h", 1);
            }
            let rem_h: u128 = if ts >= 3600 {
                rem_d % 3600
            } else {
                rem_d
            };
            if ts >= 60 {
                proof {
                    lemma_dec_str_len_u128(rem_h / 60);
                }
                push_dec(&mut s, &mut count, rem_h / 60);
                push_lit(&mut s, &mut count, "m", 1);
            }
            let rem_m: u128 = if ts >= 60 {
                rem_h % 60
            } else {
                rem_h
            };
            proof {
                lemma_dec_str_len_u128(rem_m);
            }
            push_dec(&mut s, &mut count, rem_m);
            push_lit(&mut s, &mut count, ".", 1);
            push_dec2(&mut s, &mut count, cs as u64);
            push_lit(&mut s, &mut count, "s", 1);
            proof {
                assert(s@ =~= human_chars(self.secs as int, self.nanos as int));
            }
        } else if ns > 100_000 {
            let t: u32 = (ns + 50_000) / 100_000;
            proof {
                reveal_strlit(".");
                reveal_strlit("ms");
                lemma_dec_str_len_u128((t / 10) as u128);
                assert("ms"@ =~= seq!['m', 's']);
            }
            push_dec(&mut s, &mut count, (t / 10) as u128);
            push_lit(&mut s, &mut count, ".", 1);
            push_digit(&mut s, &mut count, (t % 10) as u8);
            push_lit(&mut s, &mut count, "ms", 2);
            proof {
                assert(s@ =~= human_chars(self.secs as int, self.nanos as int));
            }
        } else if ns > 100 {
            let t: u32 = (ns + 50) / 100;
            proof {
                reveal_strlit(".");
                reveal_strlit("μs");
                lemma_dec_str_len_u128((t / 10) as u128);
                assert("μs"@ =~= seq!['μ', 's']);
            }
            push_dec(&mut s, &mut count, (t / 10) as u128);
            push_lit(&mut s, &mut count, ".", 1);
            push_digit(&mut s, &mut count, (t % 10) as u8);
            push_lit(&mut s, &mut count, "μs", 2);
            proof {
                assert(s@ =~= human_chars(self.secs as int, self.nanos as int));
            }
        } else {
            proof {
                assert(s@ =~= human_chars(self.secs as int, self.nanos as int));
            }
        }
        (s, count)
    }

    /// Render the sortable form together with its character count.
    pub(crate) fn sortable_counted(&self) -> (r: (String, usize))
        requires
            self.wf(),
        ensures
            r.0@ == sortable_chars(self.secs as int, self.nanos as int),
            r.1 == r.0@.len(),
    {
        let mut s = String::new();
        let mut count: usize = 0;
        let h = self.secs / 3600;
        proof {
            reveal_strlit(":");
            reveal_strlit(".");
        }
        if h < 100 {
            push_dec2(&mut s, &mut count, h);
        } else {
            proof {
                lemma_dec_str_len_u128(h as u128);
            }
            push_dec(&mut s, &mut count, h as u128);
        }
        push_lit(&mut s, &mut count, ":", 1);
        push_dec2(&mut s, &mut count, (self.secs % 3600) / 60);
        push_lit(&mut s, &mut count, ":", 1);
        push_dec2(&mut s, &mut count, self.secs % 60);
        push_lit(&mut s, &mut count, ".", 1);
        push_dec6(&mut s, &mut count, self.nanos / 1000);
        proof {
            assert(s@ =~= sortable_chars(self.secs as int, self.nanos as int));
        }
        (s, count)
    }
}

impl DurationExt for Dur {
    open spec fn dur_secs(&self) -> int {
        self.secs as int
    }

    open spec fn dur_nanos(&self) -> int {
        self.nanos as int
    }

    fn human_string(&self) -> (r: String) {
        self.human_counted().0
    }

    fn sortable_string(&self) -> (r: String) {
        self.sortable_counted().0
    }
}

/// Which display form the timestamp fields use.
#[derive(Clone, Copy, PartialEq, Eq, Structural, Debug)]
pub enum Format {
    Human,
    Sortable,
}

/// The rendering of the span `d` under the chosen display form.
pub open spec fn fmt_chars(f: Format, d: Dur) -> Seq<char> {
    match f {
        Format::Human => human_chars(d.secs as int, d.nanos as int),
        Format::Sortable => sortable_chars(d.secs as int, d.nanos as int),
    }
}

/// Render the span under the chosen display form, with its character
/// count.
pub(crate) fn fmt_counted(f: Format, d: &Dur) -> (r: (String, usize))
    requires
        d.wf(),
    ensures
        r.0@ == fmt_chars(f, *d),
        r.1 == r.0@.len(),
{
    match f {
        Format::Human => d.human_counted(),
        Format::Sortable => d.sortable_counted(),
    }
}

} // verus!
