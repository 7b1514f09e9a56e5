//! The line-timestamping transform.
//!
//! [`render_bytes`] says, byte by byte, what the transform emits for a
//! chunk: every byte of the chunk in order, with a prefix inserted before
//! each byte that starts a line.  The first prefix of a call carries the
//! real time-since-previous-line field (`p1`); prefixes for further lines
//! completed inside the same call carry the placeholder field (`p2`).
//! [`render_chunk`] computes exactly that, and [`RtssWriter`] wraps a sink
//! with the timing state around it.

use vstd::prelude::*;
use vstd::string::StringExecFns;
use vstd::string::StringSliceAdditionalSpecFns;
use vstd::utf8::encode_utf8;

use std::time::Instant;

use crate::clock::{duration_between, instant_now};
use crate::duration::{fmt_chars, fmt_counted, Dur, Format};
use crate::stream::{sink_flush, sink_write_all, FailureOrigin, IoFailure};

verus! {

/// The prefix due before the next byte: nothing mid-line, the first-line
/// prefix `p1` for the first prefix of a call, the placeholder prefix
/// `p2` afterwards.
pub open spec fn pre_for(at_eol: bool, first: bool, p1: Seq<u8>, p2: Seq<u8>) -> Seq<u8> {
    if at_eol {
        if first {
            p1
        } else {
            p2
        }
    } else {
        Seq::empty()
    }
}

/// Everything the transform emits for the chunk `c`, entered with
/// line-start state `at_eol`: each byte of `c` in order, a prefix
/// inserted before each byte that starts a line (byte 10 ends a line).
pub open spec fn render_bytes(c: Seq<u8>, at_eol: bool, first: bool, p1: Seq<u8>, p2: Seq<u8>)
    -> Seq<u8>
    decreases c.len(),
{
    if c.len() == 0 {
        Seq::empty()
    } else {
        pre_for(at_eol, first, p1, p2) + seq![c[0]] + render_bytes(
            c.skip(1),
            c[0] == 10,
            if at_eol {
                false
            } else {
                first
            },
            p1,
            p2,
        )
    }
}

/// The line-start state after consuming `c` from state `at_eol`.
pub open spec fn end_state(c: Seq<u8>, at_eol: bool) -> bool {
    if c.len() == 0 {
        at_eol
    } else {
        c.last() == 10
    }
}

/// Whether `c` completes at least one line.
pub open spec fn has_nl(c: Seq<u8>) -> bool {
    exists|i: int| 0 <= i < c.len() && c[i] == 10
}

/// Relies on `memchr::memchr`: the index of the first occurrence of
/// `needle` in `haystack`, or `None` when the byte does not occur.
pub assume_specification [ memchr::memchr ](needle: u8, haystack: &[u8]) -> (r: Option<usize>)
    ensures
        match r {
            Some(i) => i < haystack@.len() && haystack@[i as int] == needle && forall|j: int|
                0 <= j < i ==> haystack@[j] != needle,
            None => forall|j: int| 0 <= j < haystack@.len() ==> haystack@[j] != needle,
        },
;

/// Peeling one line-or-tail segment off the front of a chunk: `k` marks
/// the end of the first segment, so no byte before position `k - 1` ends
/// a line.
proof fn lemma_render_peel(c: Seq<u8>, e: bool, f: bool, p1: Seq<u8>, p2: Seq<u8>, k: int)
    requires
        0 < k <= c.len(),
        forall|j: int| 0 <= j < k - 1 ==> c[j] != 10,
    ensures
        render_bytes(c, e, f, p1, p2) == pre_for(e, f, p1, p2) + c.take(k) + render_bytes(
            c.skip(k),
            c[k - 1] == 10,
            if e {
                false
            } else {
                f
            },
            p1,
            p2,
        ),
    decreases k,
{
    if k == 1 {
        assert(c.take(1) =~= seq![c[0]]);
        assert(pre_for(e, f, p1, p2) + c.take(1) =~= pre_for(e, f, p1, p2) + seq![c[0]]);
    } else {
        let f2 = if e {
            false
        } else {
            f
        };
        lemma_render_peel(c.skip(1), c[0] == 10, f2, p1, p2, k - 1);
        assert(c[0] != 10);
        assert(c.skip(1).take(k - 1) =~= c.take(k).skip(1));
        assert(c.skip(1).skip(k - 1) =~= c.skip(k));
        assert(c.skip(1)[k - 2] == c[k - 1]);
        assert(pre_for(e, f, p1, p2) + seq![c[0]] + (c.skip(1).take(k - 1) + render_bytes(
            c.skip(k),
            c[k - 1] == 10,
            f2,
            p1,
            p2,
        )) =~= pre_for(e, f, p1, p2) + c.take(k) + render_bytes(c.skip(k), c[k - 1] == 10, f2, p1, p2));
        assert(pre_for(c[0] == 10, f2, p1, p2) =~= Seq::<u8>::empty());
    }
}

/// Append a byte slice to a vector.
fn extend_bytes(out: &mut Vec<u8>, src: &[u8])
    ensures
        final(out)@ == old(out)@ + src@,
{
    let n = src.len();
    let mut i: usize = 0;
    while i < n
        invariant
            i <= n,
            n == src@.len(),
            out@ == old(out)@ + src@.take(i as int),
        decreases n - i,
    {
        let b = src[i];
        out.push(b);
        proof {
            assert(old(out)@ + src@.take(i as int) + seq![src@[i as int]] =~= old(out)@
                + src@.take(i as int + 1));
        }
        i = i + 1;
    }
    proof {
        assert(src@.take(n as int) =~= src@);
    }
}

/// Turn one chunk into its emitted bytes.
///
/// Returns the emitted bytes, the line-start state after the chunk, and
/// whether the chunk completed at least one line.
#[verifier::rlimit(100)]
pub fn render_chunk(buf: &[u8], at_eol0: bool, p1: &[u8], p2: &[u8]) -> (r: (Vec<u8>, bool, bool))
    ensures
        r.0@ == render_bytes(buf@, at_eol0, true, p1@, p2@),
        r.1 == end_state(buf@, at_eol0),
        r.2 == has_nl(buf@),
{
    let mut out: Vec<u8> = Vec::new();
    let mut pos: usize = 0;
    let mut at_eol = at_eol0;
    let mut first = true;
    let mut saw = false;
    let n = buf.len();
    proof {
        assert(buf@.skip(0) =~= buf@);
        assert(Seq::<u8>::empty() + render_bytes(buf@, at_eol0, true, p1@, p2@) =~= render_bytes(
            buf@,
            at_eol0,
            true,
            p1@,
            p2@,
        ));
        assert(buf@.take(0) =~= Seq::<u8>::empty());
    }
    while pos < n
        invariant
            pos <= n,
            n == buf@.len(),
            render_bytes(buf@, at_eol0, true, p1@, p2@) == out@ + render_bytes(
                buf@.skip(pos as int),
                at_eol,
                first,
                p1@,
                p2@,
            ),
            at_eol == end_state(buf@.take(pos as int), at_eol0),
            saw == has_nl(buf@.take(pos as int)),
        decreases n - pos,
    {
        let ghost e0 = at_eol;
        let ghost f0 = first;
        let ghost pos0 = pos as int;
        let ghost out0 = out@;
        let ghost c = buf@.skip(pos as int);
        let ghost pre = pre_for(e0, f0, p1@, p2@);
        if at_eol {
            if first {
                extend_bytes(&mut out, p1);
            } else {
                extend_bytes(&mut out, p2);
            }
            first = false;
        }
        proof {
            assert(out@ =~= out0 + pre);
        }
        let rest = vstd::slice::slice_subrange(buf, pos, n);
        match memchr::memchr(10u8, rest) {
            Some(k) => {
                let seg = vstd::slice::slice_subrange(buf, pos, pos + k + 1);
                extend_bytes(&mut out, seg);
                pos = pos + k + 1;
                at_eol = true;
                saw = true;
                proof {
                    lemma_render_peel(c, e0, f0, p1@, p2@, k + 1);
                    assert(c.take(k + 1) =~= seg@);
                    assert(c.skip(k + 1) =~= buf@.skip(pos as int));
                    assert(c[k as int] == 10);
                    assert(render_bytes(c, e0, f0, p1@, p2@) == pre + seg@ + render_bytes(
                        buf@.skip(pos as int),
                        at_eol,
                        first,
                        p1@,
                        p2@,
                    ));
                    assert(out@ + render_bytes(buf@.skip(pos as int), at_eol, first, p1@, p2@)
                        =~= out0 + (pre + seg@ + render_bytes(
                        buf@.skip(pos as int),
                        at_eol,
                        first,
                        p1@,
                        p2@,
                    )));
                    assert(buf@.take(pos as int).len() > 0);
                    assert(buf@.take(pos as int).last() == buf@[pos - 1]);
                    assert(buf@[pos - 1] == c[k as int]);
                    assert(has_nl(buf@.take(pos as int))) by {
                        assert(buf@.take(pos as int)[pos - 1] == 10);
                    };
                }
            },
            None => {
                let seg = vstd::slice::slice_subrange(buf, pos, n);
                extend_bytes(&mut out, seg);
                pos = n;
                at_eol = false;
                proof {
                    lemma_render_peel(c, e0, f0, p1@, p2@, n - pos0);
                    assert(c.take(n - pos0) =~= seg@);
                    assert(c.skip(n - pos0) =~= Seq::<u8>::empty());
                    assert(c[n - pos0 - 1] == buf@[n - 1]);
                    assert(c[n - pos0 - 1] != 10);
                    assert(render_bytes(Seq::<u8>::empty(), false, if e0 {
                        false
                    } else {
                        f0
                    }, p1@, p2@) =~= Seq::<u8>::empty());
                    assert(render_bytes(c, e0, f0, p1@, p2@) =~= pre + seg@);
                    assert(out@ + render_bytes(buf@.skip(pos as int), at_eol, first, p1@, p2@)
                        =~= out0 + (pre + seg@));
                    assert(buf@.take(n as int) =~= buf@);
                    assert(buf@.take(n as int).last() == buf@[n - 1]);
                    assert(has_nl(buf@) == has_nl(buf@.take(pos0))) by {
                        if has_nl(buf@) {
                            let i = choose|i: int| 0 <= i < buf@.len() && buf@[i] == 10;
                            if i >= pos0 {
                                assert(c[i - pos0] == buf@[i]);
                                assert(false);
                            }
                            assert(buf@.take(pos0)[i] == 10);
                        }
                        if has_nl(buf@.take(pos0)) {
                            let i = choose|i: int| 0 <= i < buf@.take(pos0).len() && buf@.take(
                                pos0,
                            )[i] == 10;
                            assert(buf@[i] == 10);
                        }
                    };
                }
            },
        }
    }
    proof {
        assert(buf@.skip(n as int) =~= Seq::<u8>::empty());
        assert(out@ + render_bytes(Seq::<u8>::empty(), at_eol, first, p1@, p2@) =~= out@);
        assert(buf@.take(n as int) =~= buf@);
    }
    (out, at_eol, saw)
}

/// The first-prefix flag after consuming `c`: it drops once a prefix
/// has been emitted.
pub open spec fn first_after(c: Seq<u8>, at_eol: bool, first: bool) -> bool
    decreases c.len(),
{
    if c.len() == 0 {
        first
    } else {
        first_after(
            c.skip(1),
            c[0] == 10,
            if at_eol {
                false
            } else {
                first
            },
        )
    }
}

/// How many prefixes the transform emits for `c` from state `at_eol`:
/// one for every byte that starts a line.
pub open spec fn prefix_count(c: Seq<u8>, at_eol: bool) -> nat
    decreases c.len(),
{
    if c.len() == 0 {
        0
    } else {
        ((if at_eol {
            1nat
        } else {
            0nat
        }) + prefix_count(c.skip(1), c[0] == 10)) as nat
    }
}

/// An empty chunk is a no-op: nothing is emitted, no prefix is due, and
/// the line-start state is unchanged.
pub proof fn lemma_empty_chunk_no_op(at_eol: bool, first: bool, p1: Seq<u8>, p2: Seq<u8>)
    ensures
        render_bytes(Seq::empty(), at_eol, first, p1, p2) == Seq::<u8>::empty(),
        end_state(Seq::empty(), at_eol) == at_eol,
        prefix_count(Seq::empty(), at_eol) == 0,
        !has_nl(Seq::empty()),
{
}

/// Splitting an input into two chunks changes nothing: rendering the
/// whole equals rendering the first chunk and then the second from the
/// carried-over state.
pub proof fn lemma_render_split(
    c1: Seq<u8>,
    c2: Seq<u8>,
    e: bool,
    f: bool,
    p1: Seq<u8>,
    p2: Seq<u8>,
)
    ensures
        render_bytes(c1 + c2, e, f, p1, p2) == render_bytes(c1, e, f, p1, p2) + render_bytes(
            c2,
            end_state(c1, e),
            first_after(c1, e, f),
            p1,
            p2,
        ),
        end_state(c1 + c2, e) == end_state(c2, end_state(c1, e)),
        has_nl(c1 + c2) == (has_nl(c1) || has_nl(c2)),
    decreases c1.len(),
{
    lemma_end_state_concat(c1, c2, e);
    lemma_has_nl_concat(c1, c2);
    if c1.len() == 0 {
        assert(c1 + c2 =~= c2);
        assert(render_bytes(c1, e, f, p1, p2) + render_bytes(c2, e, f, p1, p2) =~= render_bytes(
            c2,
            e,
            f,
            p1,
            p2,
        ));
    } else {
        let f2 = if e {
            false
        } else {
            f
        };
        assert((c1 + c2)[0] == c1[0]);
        assert((c1 + c2).skip(1) =~= c1.skip(1) + c2);
        lemma_render_split(c1.skip(1), c2, c1[0] == 10, f2, p1, p2);
        assert(end_state(c1, e) == end_state(c1.skip(1), c1[0] == 10)) by {
            if c1.len() == 1 {
                assert(c1.last() == c1[0]);
            } else {
                assert(c1.skip(1).last() == c1.last());
            }
        };
        assert(pre_for(e, f, p1, p2) + seq![c1[0]] + (render_bytes(c1.skip(1), c1[0] == 10, f2, p1, p2)
            + render_bytes(c2, end_state(c1, e), first_after(c1, e, f), p1, p2)) =~= (pre_for(
            e,
            f,
            p1,
            p2,
        ) + seq![c1[0]] + render_bytes(c1.skip(1), c1[0] == 10, f2, p1, p2)) + render_bytes(
            c2,
            end_state(c1, e),
            first_after(c1, e, f),
            p1,
            p2,
        ));
    }
}

/// Line completions distribute over chunk boundaries.
pub proof fn lemma_has_nl_concat(c1: Seq<u8>, c2: Seq<u8>)
    ensures
        has_nl(c1 + c2) == (has_nl(c1) || has_nl(c2)),
{
    if has_nl(c1) {
        let i = choose|i: int| 0 <= i < c1.len() && c1[i] == 10;
        assert((c1 + c2)[i] == 10);
    }
    if has_nl(c2) {
        let i = choose|i: int| 0 <= i < c2.len() && c2[i] == 10;
        assert((c1 + c2)[c1.len() + i] == 10);
    }
    if has_nl(c1 + c2) {
        let i = choose|i: int| 0 <= i < (c1 + c2).len() && (c1 + c2)[i] == 10;
        if i < c1.len() {
            assert(c1[i] == 10);
        } else {
            assert(c2[i - c1.len()] == 10);
        }
    }
}

/// The number of prefixes emitted does not depend on where chunk
/// boundaries fall: counts over the pieces add up to the count over the
/// whole.
pub proof fn lemma_prefix_count_split(c1: Seq<u8>, c2: Seq<u8>, e: bool)
    ensures
        prefix_count(c1 + c2, e) == prefix_count(c1, e) + prefix_count(c2, end_state(c1, e)),
    decreases c1.len(),
{
    if c1.len() == 0 {
        assert(c1 + c2 =~= c2);
    } else {
        assert((c1 + c2)[0] == c1[0]);
        assert((c1 + c2).skip(1) =~= c1.skip(1) + c2);
        lemma_prefix_count_split(c1.skip(1), c2, c1[0] == 10);
        assert(end_state(c1, e) == end_state(c1.skip(1), c1[0] == 10)) by {
            if c1.len() == 1 {
                assert(c1.last() == c1[0]);
            } else {
                assert(c1.skip(1).last() == c1.last());
            }
        };
    }
}

/// With prefixes of one common length, the output is exactly the input
/// plus that length once per emitted prefix: no byte is dropped or
/// duplicated.
pub proof fn lemma_render_len(c: Seq<u8>, e: bool, f: bool, p1: Seq<u8>, p2: Seq<u8>)
    requires
        p1.len() == p2.len(),
    ensures
        render_bytes(c, e, f, p1, p2).len() == c.len() + p1.len() * prefix_count(c, e),
    decreases c.len(),
{
    if c.len() == 0 {
        assert(c.len() + p1.len() * prefix_count(c, e) == 0) by (nonlinear_arith)
            requires
                c.len() == 0,
                prefix_count(c, e) == 0,
        ;
    } else {
        let f2 = if e {
            false
        } else {
            f
        };
        lemma_render_len(c.skip(1), c[0] == 10, f2, p1, p2);
        let l = p1.len() as int;
        let k = prefix_count(c.skip(1), c[0] == 10) as int;
        if e {
            assert(prefix_count(c, e) == 1 + k);
            assert(l * (1 + k) == l + l * k) by (nonlinear_arith);
        } else {
            assert(prefix_count(c, e) == k);
        }
    }
}

/// With empty prefixes the transform is the identity on content: every
/// input byte appears, in order, exactly once.
pub proof fn lemma_render_content(c: Seq<u8>, e: bool, f: bool)
    ensures
        render_bytes(c, e, f, Seq::empty(), Seq::empty()) == c,
    decreases c.len(),
{
    if c.len() == 0 {
    } else {
        let f2 = if e {
            false
        } else {
            f
        };
        lemma_render_content(c.skip(1), c[0] == 10, f2);
        assert(pre_for(e, f, Seq::empty(), Seq::empty()) + seq![c[0]] + c.skip(1) =~= c);
    }
}

/// When both prefixes are the same bytes, the first-prefix flag makes no
/// difference, so rendering an input is the same whatever chunking it
/// arrived in.
pub proof fn lemma_render_first_irrelevant(c: Seq<u8>, e: bool, f1: bool, f2: bool, p: Seq<u8>)
    ensures
        render_bytes(c, e, f1, p, p) == render_bytes(c, e, f2, p, p),
    decreases c.len(),
{
    if c.len() > 0 {
        lemma_render_first_irrelevant(
            c.skip(1),
            c[0] == 10,
            if e {
                false
            } else {
                f1
            },
            if e {
                false
            } else {
                f2
            },
            p,
        );
    }
}

/// Line-ending bytes of `c` that have a byte after them: each one makes
/// the byte after it start a line.
pub open spec fn inner_newlines(c: Seq<u8>) -> nat
    decreases c.len(),
{
    if c.len() <= 1 {
        0
    } else {
        ((if c[0] == 10 {
            1nat
        } else {
            0nat
        }) + inner_newlines(c.skip(1))) as nat
    }
}

/// Exactly one prefix per line: for an input holding some complete lines
/// and possibly an unterminated trailing fragment, entered at a line
/// start, the transform emits one prefix for each complete line and one
/// for the fragment if there is one.
pub proof fn lemma_prefix_count_value(c: Seq<u8>, e: bool)
    ensures
        prefix_count(c, e) == (if e && c.len() > 0 {
            1nat
        } else {
            0nat
        }) + inner_newlines(c),
    decreases c.len(),
{
    if c.len() > 0 {
        lemma_prefix_count_value(c.skip(1), c[0] == 10);
    }
}

/// `n` space characters.
pub open spec fn spaces(n: int) -> Seq<char>
    decreases n,
{
    if n <= 0 {
        Seq::empty()
    } else {
        spaces(n - 1) + seq![' ']
    }
}

/// `s` right-justified to eight characters; longer strings stay as they
/// are.
pub open spec fn pad8(s: Seq<char>) -> Seq<char> {
    if s.len() >= 8 {
        s
    } else {
        spaces(8 - s.len()) + s
    }
}

/// The line prefix: time since start and time since the previous line,
/// each right-justified to eight characters, then the separator between
/// single spaces.
pub open spec fn prefix_chars(f: Format, ds: Dur, dl: Dur, sep: char) -> Seq<char> {
    pad8(fmt_chars(f, ds)) + seq![' '] + pad8(fmt_chars(f, dl)) + seq![' ', sep, ' ']
}

/// Relies on `String::push`: appends exactly the one character.
#[verifier::external_body]
fn push_char(s: &mut String, c: char)
    ensures
        final(s)@ == old(s)@ + seq![c],
{
    s.push(c);
}

/// Append `s`, of character count `n`, right-justified to eight
/// characters.
pub(crate) fn append_pad8(out: &mut String, s: &String, n: usize)
    requires
        n == s@.len(),
    ensures
        final(out)@ == old(out)@ + pad8(s@),
{
    proof {
        reveal_strlit(" ");
    }
    let mut i: usize = n;
    while i < 8
        invariant
            n <= i,
            i <= 8 || i == n,
            out@ == old(out)@ + spaces(i - n),
        decreases 8 - i,
    {
        out.append(" ");
        proof {
            reveal_strlit(" ");
            assert(old(out)@ + spaces(i - n) + " "@ =~= old(out)@ + spaces(i + 1 - n));
        }
        i = i + 1;
    }
    out.append(s.as_str());
    proof {
        if n >= 8 {
            assert(spaces(0) =~= Seq::<char>::empty());
            assert(old(out)@ + spaces(0) + s@ =~= old(out)@ + pad8(s@));
        } else {
            assert(old(out)@ + spaces(8 - n) + s@ =~= old(out)@ + pad8(s@));
        }
    }
}

/// Build the full line prefix for the two measured spans.
pub(crate) fn build_prefix(f: Format, ds: &Dur, dl: &Dur, sep: char) -> (r: String)
    requires
        ds.wf(),
        dl.wf(),
    ensures
        r@ == prefix_chars(f, *ds, *dl, sep),
{
    let (s1, n1) = fmt_counted(f, ds);
    let (s2, n2) = fmt_counted(f, dl);
    let mut r = String::new();
    append_pad8(&mut r, &s1, n1);
    r.append(" ");
    append_pad8(&mut r, &s2, n2);
    r.append(" ");
    push_char(&mut r, sep);
    r.append(" ");
    proof {
        reveal_strlit(" ");
        assert(r@ =~= prefix_chars(f, *ds, *dl, sep));
    }
    r
}

/// The line-start state after `a + b` is the state after `b`, entered
/// from the state after `a`.
pub proof fn lemma_end_state_concat(a: Seq<u8>, b: Seq<u8>, e: bool)
    ensures
        end_state(a + b, e) == end_state(b, end_state(a, e)),
{
    if b.len() == 0 {
        assert(a + b =~= a);
    } else {
        assert((a + b).last() == b.last());
    }
}

/// The emitted bytes a successful `write` appends, given the two spans
/// the call measured: the rendering of the chunk between the prefix that
/// carries the measured time-since-previous-line and the placeholder
/// prefix that carries a zero span.
pub open spec fn write_emits(
    f: Format,
    sep: char,
    prior: Seq<u8>,
    buf: Seq<u8>,
    eol: bool,
    after: Seq<u8>,
    ds: Dur,
    dl: Dur,
) -> bool {
    &&& ds.wf()
    &&& dl.wf()
    &&& after == prior + render_bytes(
        buf,
        eol,
        true,
        encode_utf8(prefix_chars(f, ds, dl, sep)),
        encode_utf8(prefix_chars(f, ds, (Dur { secs: 0, nanos: 0 }), sep)),
    )
}

/// A writer that prefixes every line it is handed with relative
/// timestamps before passing the bytes on to the sink it wraps.
pub struct RtssWriter<W> {
    inner: W,
    format: Format,
    separator: char,
    start: Instant,
    last: Instant,
    at_eol: bool,
    history: Ghost<Seq<u8>>,
    sent: Ghost<Seq<u8>>,
    measured: Ghost<(Dur, Dur)>,
    taken_at: Ghost<Instant>,
}

impl<W> RtssWriter<W> {
    /// Every byte accepted so far, across all calls.
    pub closed spec fn accepted(&self) -> Seq<u8> {
        self.history@
    }

    /// Every byte handed to the sink so far, across all calls.
    pub closed spec fn emitted(&self) -> Seq<u8> {
        self.sent@
    }

    /// Whether the next byte accepted will start a new line.
    pub closed spec fn line_start(&self) -> bool {
        self.at_eol
    }

    /// The display form the prefixes use.
    pub closed spec fn fmt(&self) -> Format {
        self.format
    }

    /// The separator character between prefix and content.
    pub closed spec fn sep(&self) -> char {
        self.separator
    }

    /// The instant the whole run started.
    pub closed spec fn start_time(&self) -> Instant {
        self.start
    }

    /// The instant the previous line was completed, or the start.
    pub closed spec fn last_time(&self) -> Instant {
        self.last
    }

    /// The two spans the most recent successful `write` measured: time
    /// since start and time since the previous line.
    pub closed spec fn last_measured(&self) -> (Dur, Dur) {
        self.measured@
    }

    /// The instant the most recent successful `write` captured, once at
    /// the top of the call, and measured both its spans against.
    pub closed spec fn measured_at(&self) -> Instant {
        self.taken_at@
    }

    /// The line-start flag tracks the bytes accepted so far.
    pub open spec fn wf(&self) -> bool {
        self.line_start() == end_state(self.accepted(), true)
    }
}

impl<W: std::io::Write> RtssWriter<W> {
    /// Create a writer over `inner` with a given display form, separator
    /// character, and start instant.
    pub fn new(inner: W, format: Format, separator: char, now: Instant) -> (r: Self)
        ensures
            r.wf(),
            r.fmt() == format,
            r.sep() == separator,
            r.start_time() == now,
            r.last_time() == now,
            r.line_start(),
            r.accepted() == Seq::<u8>::empty(),
            r.emitted() == Seq::<u8>::empty(),
            r.measured_at() == now,
    {
        RtssWriter {
            inner,
            format,
            separator,
            start: now,
            last: now,
            at_eol: true,
            history: Ghost(Seq::empty()),
            sent: Ghost(Seq::empty()),
            measured: Ghost((Dur { secs: 0, nanos: 0 }, Dur { secs: 0, nanos: 0 })),
            taken_at: Ghost(now),
        }
    }

    /// Accept a chunk: hand the sink the chunk's rendering — every byte
    /// of the chunk, a timestamp prefix inserted before each byte that
    /// starts a line — and flush once.
    ///
    /// On success the whole chunk is accepted, and the previous-line
    /// instant advances to the instant this call captured exactly when
    /// the chunk completed at least one line.  On failure nothing is
    /// recorded: the writer's state is as before the call (what the sink
    /// itself retained is the sink's affair), and a surfaced failure
    /// comes from the sink's write — never of the interrupted kind — or
    /// from its flush.
    pub fn write(&mut self, buf: &[u8]) -> (r: Result<usize, IoFailure>)
        requires
            old(self).wf(),
        ensures
            final(self).wf(),
            final(self).fmt() == old(self).fmt(),
            final(self).sep() == old(self).sep(),
            final(self).start_time() == old(self).start_time(),
            r matches Ok(n) ==> {
                &&& n == buf@.len()
                &&& final(self).accepted() == old(self).accepted() + buf@
                &&& final(self).line_start() == end_state(buf@, old(self).line_start())
                &&& write_emits(
                    old(self).fmt(),
                    old(self).sep(),
                    old(self).emitted(),
                    buf@,
                    old(self).line_start(),
                    final(self).emitted(),
                    final(self).last_measured().0,
                    final(self).last_measured().1,
                )
                &&& has_nl(buf@) ==> final(self).last_time() == final(self).measured_at()
                &&& !has_nl(buf@) ==> final(self).last_time() == old(self).last_time()
            },
            r matches Err(e) ==> {
                &&& final(self).accepted() == old(self).accepted()
                &&& final(self).emitted() == old(self).emitted()
                &&& final(self).line_start() == old(self).line_start()
                &&& final(self).last_time() == old(self).last_time()
                &&& final(self).measured_at() == old(self).measured_at()
                &&& e.origin == FailureOrigin::Write || e.origin == FailureOrigin::Flush
                &&& e.origin == FailureOrigin::Write ==> !e.interrupted
            },
    {
        let now = instant_now();
        let ds = duration_between(&self.start, &now);
        let dl = duration_between(&self.last, &now);
        let zero = Dur::new(0, 0);
        let p1 = build_prefix(self.format, &ds, &dl, self.separator);
        let p2 = build_prefix(self.format, &ds, &zero, self.separator);
        let (out, new_eol, saw) = render_chunk(
            buf,
            self.at_eol,
            p1.as_str().as_bytes(),
            p2.as_str().as_bytes(),
        );
        match sink_write_all(&mut self.inner, out.as_slice()) {
            Ok(()) => {},
            Err(e) => {
                return Err(e);
            },
        }
        match sink_flush(&mut self.inner) {
            Ok(()) => {},
            Err(e) => {
                return Err(e);
            },
        }
        proof {
            lemma_end_state_concat(self.history@, buf@, true);
        }
        self.at_eol = new_eol;
        self.history = Ghost(self.history@ + buf@);
        self.sent = Ghost(self.sent@ + out@);
        self.measured = Ghost((ds, dl));
        self.taken_at = Ghost(now);
        if saw {
            self.last = now;
        }
        Ok(buf.len())
    }

    /// Flush the sink; the writer's own state is untouched.
    pub fn flush(&mut self) -> (r: Result<(), IoFailure>)
        ensures
            final(self).wf() == old(self).wf(),
            final(self).measured_at() == old(self).measured_at(),
            final(self).accepted() == old(self).accepted(),
            final(self).emitted() == old(self).emitted(),
            final(self).line_start() == old(self).line_start(),
            final(self).fmt() == old(self).fmt(),
            final(self).sep() == old(self).sep(),
            final(self).start_time() == old(self).start_time(),
            final(self).last_time() == old(self).last_time(),
    {
        sink_flush(&mut self.inner)
    }
}

} // verus!
