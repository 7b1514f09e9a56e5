//! The sortable display form orders like the spans it renders.
//!
//! [`lex_lt`] is plain lexicographic comparison of character sequences by
//! code point, and [`lex_lt_bytes`] the same on bytes — the order in which
//! text compares.  The lemmas culminate in [`lemma_sortable_orders`] and
//! [`lemma_sortable_orders_bytes`]: for spans below 100 hours (the range
//! in which the hour field keeps its fixed width), comparing two sortable
//! strings as text — characters or UTF-8 bytes — is the same as comparing
//! the spans themselves at microsecond resolution.

use vstd::prelude::*;

use vstd::arithmetic::div_mod::{
    lemma_div_denominator, lemma_div_pos_is_pos, lemma_fundamental_div_mod,
    lemma_fundamental_div_mod_converse_mod, lemma_mod_division_less_than_divisor,
    lemma_multiply_divide_lt,
};

use vstd::utf8::{encode_utf8, is_ascii_chars};

use crate::duration::{dec2, dec6, dec_min2, dec_str, digit, sortable_chars, Dur};

verus! {

/// Strict lexicographic order on character sequences, by code point, with
/// a proper prefix ordered before its extensions.
pub open spec fn lex_lt(a: Seq<char>, b: Seq<char>) -> bool
    decreases a.len(),
{
    if b.len() == 0 {
        false
    } else if a.len() == 0 {
        true
    } else if a[0] != b[0] {
        (a[0] as u32) < (b[0] as u32)
    } else {
        lex_lt(a.skip(1), b.skip(1))
    }
}

/// Comparing `x + y` with `x2 + y2` compares the equal-length heads first
/// and falls back to the tails only when the heads are equal.
pub proof fn lemma_lex_concat(x: Seq<char>, y: Seq<char>, x2: Seq<char>, y2: Seq<char>)
    requires
        x.len() == x2.len(),
    ensures
        lex_lt(x + y, x2 + y2) <==> (lex_lt(x, x2) || (x == x2 && lex_lt(y, y2))),
    decreases x.len(),
{
    if x.len() == 0 {
        assert(x + y =~= y);
        assert(x2 + y2 =~= y2);
        assert(x =~= x2);
    } else {
        assert((x + y)[0] == x[0]);
        assert((x2 + y2)[0] == x2[0]);
        if x[0] != x2[0] {
            assert(x != x2);
        } else {
            assert((x + y).skip(1) =~= x.skip(1) + y);
            assert((x2 + y2).skip(1) =~= x2.skip(1) + y2);
            lemma_lex_concat(x.skip(1), y, x2.skip(1), y2);
            if x.skip(1) == x2.skip(1) {
                assert forall|i: int| 0 <= i < x.len() implies x[i] == x2[i] by {
                    if i > 0 {
                        assert(x.skip(1)[i - 1] == x[i]);
                        assert(x2.skip(1)[i - 1] == x2[i]);
                    }
                }
                assert(x =~= x2);
            }
            if x == x2 {
                assert(x.skip(1) =~= x2.skip(1));
            }
        }
    }
}

/// One-character sequences compare as their characters do.
proof fn lemma_lex_single(c: char, d: char)
    ensures
        lex_lt(seq![c], seq![d]) <==> ((c as u32) < (d as u32)),
{
    let a = seq![c];
    let b = seq![d];
    assert(a.skip(1) =~= Seq::<char>::empty());
    assert(b.skip(1) =~= Seq::<char>::empty());
    assert(!lex_lt(Seq::<char>::empty(), Seq::<char>::empty()));
}

/// Digit characters compare as the digits they stand for.
proof fn lemma_digit_order(a: int, b: int)
    requires
        0 <= a <= 9,
        0 <= b <= 9,
    ensures
        ((digit(a) as u32) < (digit(b) as u32)) <==> a < b,
        (digit(a) == digit(b)) <==> a == b,
{
}

/// Two-digit renderings compare as the numbers they stand for.
pub proof fn lemma_dec2_order(a: int, b: int)
    requires
        0 <= a < 100,
        0 <= b < 100,
    ensures
        lex_lt(dec2(a), dec2(b)) <==> a < b,
        (dec2(a) == dec2(b)) <==> a == b,
{
    lemma_digit_order(a / 10, b / 10);
    lemma_digit_order(a % 10, b % 10);
    let ah = seq![digit(a / 10)];
    let al = seq![digit(a % 10)];
    let bh = seq![digit(b / 10)];
    let bl = seq![digit(b % 10)];
    assert(dec2(a) =~= ah + al);
    assert(dec2(b) =~= bh + bl);
    lemma_lex_concat(ah, al, bh, bl);
    lemma_lex_single(digit(a / 10), digit(b / 10));
    lemma_lex_single(digit(a % 10), digit(b % 10));
    assert((ah == bh) <==> (digit(a / 10) == digit(b / 10))) by {
        if digit(a / 10) == digit(b / 10) {
            assert(ah =~= bh);
        }
        if ah == bh {
            assert(ah[0] == bh[0]);
        }
    };
    lemma_fundamental_div_mod(a, 10);
    lemma_fundamental_div_mod(b, 10);
    lemma_mod_division_less_than_divisor(a, 10);
    lemma_mod_division_less_than_divisor(b, 10);
    if dec2(a) == dec2(b) {
        assert(dec2(a)[0] == dec2(b)[0]);
        assert(dec2(a)[1] == dec2(b)[1]);
    }
    if a == b {
        assert(dec2(a) =~= dec2(b));
    }
}

/// Six-digit renderings compare as the numbers they stand for.
pub proof fn lemma_dec6_order(a: int, b: int)
    requires
        0 <= a < 1_000_000,
        0 <= b < 1_000_000,
    ensures
        lex_lt(dec6(a), dec6(b)) <==> a < b,
{
    let a1 = a / 10_000;
    let a2 = (a / 100) % 100;
    let a3 = a % 100;
    let b1 = b / 10_000;
    let b2 = (b / 100) % 100;
    let b3 = b % 100;
    lemma_fundamental_div_mod(a, 100);
    lemma_mod_division_less_than_divisor(a, 100);
    lemma_div_pos_is_pos(a, 100);
    lemma_fundamental_div_mod(a / 100, 100);
    lemma_mod_division_less_than_divisor(a / 100, 100);
    lemma_div_denominator(a, 100, 100);
    lemma_multiply_divide_lt(a, 10_000, 100);
    lemma_fundamental_div_mod(b, 100);
    lemma_mod_division_less_than_divisor(b, 100);
    lemma_div_pos_is_pos(b, 100);
    lemma_fundamental_div_mod(b / 100, 100);
    lemma_mod_division_less_than_divisor(b / 100, 100);
    lemma_div_denominator(b, 100, 100);
    lemma_multiply_divide_lt(b, 10_000, 100);
    assert(a == a1 * 10_000 + a2 * 100 + a3);
    assert(b == b1 * 10_000 + b2 * 100 + b3);
    lemma_dec2_order(a1, b1);
    lemma_dec2_order(a2, b2);
    lemma_dec2_order(a3, b3);
    lemma_lex_concat(dec2(a1), dec2(a2) + dec2(a3), dec2(b1), dec2(b2) + dec2(b3));
    lemma_lex_concat(dec2(a2), dec2(a3), dec2(b2), dec2(b3));
    assert(dec6(a) =~= dec2(a1) + (dec2(a2) + dec2(a3)));
    assert(dec6(b) =~= dec2(b1) + (dec2(b2) + dec2(b3)));
}

/// Sortable strings order exactly as their spans do, at the microsecond
/// resolution the format carries, for spans of fewer than 100 hours (the
/// range in which the hour field keeps its two-character width).
pub proof fn lemma_sortable_orders(d1: Dur, d2: Dur)
    requires
        d1.wf(),
        d2.wf(),
        d1.secs < 360_000,
        d2.secs < 360_000,
    ensures
        lex_lt(
            sortable_chars(d1.secs as int, d1.nanos as int),
            sortable_chars(d2.secs as int, d2.nanos as int),
        ) <==> (d1.secs < d2.secs || (d1.secs == d2.secs && d1.nanos / 1000 < d2.nanos / 1000)),
{
    let s1 = d1.secs as int;
    let s2 = d2.secs as int;
    let u1 = d1.nanos as int / 1000;
    let u2 = d2.nanos as int / 1000;
    let h1 = s1 / 3600;
    let m1 = (s1 % 3600) / 60;
    let c1 = s1 % 60;
    let h2 = s2 / 3600;
    let m2 = (s2 % 3600) / 60;
    let c2 = s2 % 60;
    lemma_span_fields(s1);
    lemma_span_fields(s2);
    lemma_div_pos_is_pos(d1.nanos as int, 1000);
    lemma_multiply_divide_lt(d1.nanos as int, 1000, 1_000_000);
    lemma_div_pos_is_pos(d2.nanos as int, 1000);
    lemma_multiply_divide_lt(d2.nanos as int, 1000, 1_000_000);
    assert(dec_min2(h1) == dec2(h1));
    assert(dec_min2(h2) == dec2(h2));
    let colon = seq![':'];
    let dot = seq!['.'];
    let t1 = colon + (dec2(m1) + (colon + (dec2(c1) + (dot + dec6(u1)))));
    let t2 = colon + (dec2(m2) + (colon + (dec2(c2) + (dot + dec6(u2)))));
    assert(sortable_chars(s1, d1.nanos as int) =~= dec2(h1) + t1);
    assert(sortable_chars(s2, d2.nanos as int) =~= dec2(h2) + t2);
    lemma_dec2_order(h1, h2);
    lemma_dec2_order(m1, m2);
    lemma_dec2_order(c1, c2);
    lemma_dec6_order(u1, u2);
    lemma_lex_concat(dec2(h1), t1, dec2(h2), t2);
    lemma_lex_concat(colon, dec2(m1) + (colon + (dec2(c1) + (dot + dec6(u1)))), colon,
        dec2(m2) + (colon + (dec2(c2) + (dot + dec6(u2)))));
    lemma_lex_single(':', ':');
    lemma_lex_single('.', '.');
    lemma_lex_concat(dec2(m1), colon + (dec2(c1) + (dot + dec6(u1))), dec2(m2),
        colon + (dec2(c2) + (dot + dec6(u2))));
    lemma_lex_concat(colon, dec2(c1) + (dot + dec6(u1)), colon, dec2(c2) + (dot + dec6(u2)));
    lemma_lex_concat(dec2(c1), dot + dec6(u1), dec2(c2), dot + dec6(u2));
    lemma_lex_concat(dot, dec6(u1), dot, dec6(u2));
}

/// Strict lexicographic order on byte sequences, by value, with a
/// proper prefix ordered before its extensions: how byte strings, and
/// UTF-8 encoded text, compare.
pub open spec fn lex_lt_bytes(a: Seq<u8>, b: Seq<u8>) -> bool
    decreases a.len(),
{
    if b.len() == 0 {
        false
    } else if a.len() == 0 {
        true
    } else if a[0] != b[0] {
        a[0] < b[0]
    } else {
        lex_lt_bytes(a.skip(1), b.skip(1))
    }
}

/// The unpadded decimal rendering holds only ASCII characters.
proof fn lemma_dec_str_ascii(n: int)
    ensures
        is_ascii_chars(dec_str(n)),
    decreases n,
{
    if n >= 10 {
        lemma_dec_str_ascii(n / 10);
        assert forall|i: int| 0 <= i < dec_str(n).len() implies '\0' <= #[trigger] dec_str(n)[i]
            <= '\u{7f}' by {
            if i < dec_str(n / 10).len() {
                assert(dec_str(n)[i] == dec_str(n / 10)[i]);
            }
        }
    }
}

/// A sortable string holds only ASCII characters.
pub proof fn lemma_sortable_ascii(secs: int, nanos: int)
    ensures
        is_ascii_chars(sortable_chars(secs, nanos)),
{
    let s = sortable_chars(secs, nanos);
    let h = dec_min2(secs / 3600);
    lemma_dec_str_ascii(secs / 3600);
    assert(is_ascii_chars(h));
    let m = dec2((secs % 3600) / 60);
    let c = dec2(secs % 60);
    let u = dec6(nanos / 1000);
    assert forall|i: int| 0 <= i < s.len() implies '\0' <= #[trigger] s[i] <= '\u{7f}' by {
        let hl = h.len() as int;
        if i < hl {
            assert(s[i] == h[i]);
        } else if i == hl {
            assert(s[i] == ':');
        } else if i <= hl + 2 {
            assert(s[i] == m[i - hl - 1]);
        } else if i == hl + 3 {
            assert(s[i] == ':');
        } else if i <= hl + 5 {
            assert(s[i] == c[i - hl - 4]);
        } else if i == hl + 6 {
            assert(s[i] == '.');
        } else {
            assert(s[i] == u[i - hl - 7]);
        }
    }
}

/// For ASCII text the UTF-8 bytes compare exactly as the characters do.
pub proof fn lemma_lex_bytes_ascii(a: Seq<char>, b: Seq<char>)
    requires
        is_ascii_chars(a),
        is_ascii_chars(b),
    ensures
        lex_lt_bytes(encode_utf8(a), encode_utf8(b)) == lex_lt(a, b),
    decreases a.len(),
{
    vstd::utf8::is_ascii_chars_encode_utf8(a);
    vstd::utf8::is_ascii_chars_encode_utf8(b);
    let ea = encode_utf8(a);
    let eb = encode_utf8(b);
    if b.len() == 0 {
    } else if a.len() == 0 {
    } else {
        assert(ea[0] == a[0] as u8);
        assert(eb[0] == b[0] as u8);
        assert(a.skip(1).len() == ea.skip(1).len());
        assert(is_ascii_chars(a.skip(1)));
        assert(is_ascii_chars(b.skip(1)));
        lemma_lex_bytes_ascii(a.skip(1), b.skip(1));
        vstd::utf8::is_ascii_chars_encode_utf8(a.skip(1));
        vstd::utf8::is_ascii_chars_encode_utf8(b.skip(1));
        assert(ea.skip(1) =~= encode_utf8(a.skip(1)));
        assert(eb.skip(1) =~= encode_utf8(b.skip(1)));
        let x = a[0] as u32;
        let y = b[0] as u32;
        assert(x < 128 && y < 128);
        assert((a[0] as u8) == x as u8);
        assert((b[0] as u8) == y as u8);
        assert((x as u8) as u32 == x && (y as u8) as u32 == y) by (bit_vector)
            requires
                x < 128,
                y < 128,
        ;
        if a[0] != b[0] {
            vstd::utf8::char_u32_cast(a[0], x);
            vstd::utf8::char_u32_cast(b[0], y);
            assert(x != y);
        }
    }
}

/// Comparing two sortable strings as byte strings — the order any text
/// tool sees — is comparing the spans they render, at microsecond
/// resolution, for spans of fewer than 100 hours.
pub proof fn lemma_sortable_orders_bytes(d1: Dur, d2: Dur)
    requires
        d1.wf(),
        d2.wf(),
        d1.secs < 360_000,
        d2.secs < 360_000,
    ensures
        lex_lt_bytes(
            encode_utf8(sortable_chars(d1.secs as int, d1.nanos as int)),
            encode_utf8(sortable_chars(d2.secs as int, d2.nanos as int)),
        ) <==> (d1.secs < d2.secs || (d1.secs == d2.secs && d1.nanos / 1000 < d2.nanos / 1000)),
{
    lemma_sortable_ascii(d1.secs as int, d1.nanos as int);
    lemma_sortable_ascii(d2.secs as int, d2.nanos as int);
    lemma_lex_bytes_ascii(
        sortable_chars(d1.secs as int, d1.nanos as int),
        sortable_chars(d2.secs as int, d2.nanos as int),
    );
    lemma_sortable_orders(d1, d2);
}

/// The hour, minute and second fields of a span below 100 hours: their
/// bounds, and that they recompose to the span itself.
proof fn lemma_span_fields(s: int)
    requires
        0 <= s < 360_000,
    ensures
        0 <= s / 3600 < 100,
        0 <= (s % 3600) / 60 < 60,
        0 <= s % 60 < 60,
        s == (s / 3600) * 3600 + ((s % 3600) / 60) * 60 + s % 60,
{
    let h = s / 3600;
    let r = s % 3600;
    let m = r / 60;
    lemma_fundamental_div_mod(s, 3600);
    lemma_mod_division_less_than_divisor(s, 3600);
    lemma_div_pos_is_pos(s, 3600);
    lemma_multiply_divide_lt(s, 3600, 100);
    lemma_fundamental_div_mod(r, 60);
    lemma_mod_division_less_than_divisor(r, 60);
    lemma_div_pos_is_pos(r, 60);
    lemma_multiply_divide_lt(r, 60, 60);
    lemma_fundamental_div_mod_converse_mod(s, 60, 60 * h + m, r % 60);
}

} // verus!
