//! Reading and writing line-oriented text as bytes: ASCII literals,
//! decimal and fixed-width hexadecimal numbers, and free UTF-8 text up to a
//! delimiter. Each reader is stated exactly over a spec reader, and each
//! spec reader is shown to give back what the matching writer wrote.
use vstd::prelude::*;
use crate::text::{ascii_chars, dec_digits, digit, hex_digits, lemma_dec_digits_all, lemma_hex_digits_all};
use vstd::utf8::{decode_utf8, encode_scalar, encode_utf8, valid_utf8};

verus! {

broadcast use vstd::string::is_ascii_spec_bytes;

/// The bytes of an ASCII string literal.
pub open spec fn lit(s: &str) -> Seq<u8> {
    s@.map_values(|c: char| c as u8)
}

/// The bytes of ASCII text.
pub open spec fn text_bytes(t: Seq<char>) -> Seq<u8> {
    t.map_values(|c: char| c as u8)
}

/// Text of one line: no character in it is a newline.
pub open spec fn line_text(t: Seq<char>) -> bool {
    forall|i: int| 0 <= i < t.len() ==> (#[trigger] t[i]) as u32 != 10
}

/// One word of a line: no character in it is a newline or a space.
pub open spec fn word_text(t: Seq<char>) -> bool {
    line_text(t) && forall|i: int| 0 <= i < t.len() ==> (#[trigger] t[i]) as u32 != 32
}

/// `s` stands in `b` at `pos`.
pub open spec fn is_prefix_at(b: Seq<u8>, pos: int, s: Seq<u8>) -> bool {
    0 <= pos && pos + s.len() <= b.len() && b.subrange(pos, pos + s.len()) == s
}

pub open spec fn is_dec_byte(x: u8) -> bool {
    48 <= x <= 57
}

pub open spec fn is_hex_byte(x: u8) -> bool {
    48 <= x <= 57 || 65 <= x <= 70
}

/// The value of one digit byte.
pub open spec fn digit_value(x: u8) -> nat {
    if 48 <= x <= 57 {
        (x - 48) as nat
    } else if 65 <= x <= 70 {
        (x - 55) as nat
    } else {
        0
    }
}

/// The value of decimal digits, most significant first.
pub open spec fn dec_value(s: Seq<u8>) -> nat
    decreases s.len(),
{
    if s.len() == 0 {
        0
    } else {
        dec_value(s.drop_last()) * 10 + digit_value(s.last())
    }
}

/// The value of hexadecimal digits, most significant first.
pub open spec fn hex_value(s: Seq<u8>) -> nat
    decreases s.len(),
{
    if s.len() == 0 {
        0
    } else {
        hex_value(s.drop_last()) * 16 + digit_value(s.last())
    }
}

pub open spec fn pow16(w: nat) -> nat
    decreases w,
{
    if w == 0 {
        1
    } else {
        16 * pow16((w - 1) as nat)
    }
}

/// Where the run of decimal digits that starts at `pos` ends.
pub open spec fn digits_end(b: Seq<u8>, pos: int) -> int
    decreases b.len() - pos,
{
    if 0 <= pos < b.len() && is_dec_byte(b[pos]) {
        digits_end(b, pos + 1)
    } else {
        pos
    }
}

/// Reads the literal `s` at `pos`: the position after it.
pub open spec fn lit_at(b: Seq<u8>, pos: int, s: Seq<u8>) -> Option<int> {
    if is_prefix_at(b, pos, s) {
        Some(pos + s.len())
    } else {
        None
    }
}

/// Reads a decimal number at `pos`: at least one digit, the whole run of
/// digits, a value no greater than `max`.
pub open spec fn dec_at(b: Seq<u8>, pos: int, max: nat) -> Option<(nat, int)> {
    let e = digits_end(b, pos);
    if 0 <= pos < e && dec_value(b.subrange(pos, e)) <= max {
        Some((dec_value(b.subrange(pos, e)), e))
    } else {
        None
    }
}

/// Reads exactly `w` hexadecimal digits at `pos`.
pub open spec fn hex_at(b: Seq<u8>, pos: int, w: nat) -> Option<(nat, int)> {
    if 0 <= pos && pos + w <= b.len() && (forall|i: int|
        pos <= i < pos + w ==> is_hex_byte(#[trigger] b[i])) {
        Some((hex_value(b.subrange(pos, pos + w)), pos + w))
    } else {
        None
    }
}

/// A byte of text that stops at `stop`: any byte but `stop` and a newline.
pub open spec fn is_text_byte(x: u8, stop: u8) -> bool {
    x != 10 && x != stop
}

/// Where the run of text bytes that starts at `pos` ends.
pub open spec fn text_end(b: Seq<u8>, pos: int, stop: u8) -> int
    decreases b.len() - pos,
{
    if 0 <= pos < b.len() && is_text_byte(b[pos], stop) {
        text_end(b, pos + 1, stop)
    } else {
        pos
    }
}

/// Reads UTF-8 text at `pos` up to the byte `stop`, which must follow it
/// before any newline: the text and the position of `stop`.
pub open spec fn text_at(b: Seq<u8>, pos: int, stop: u8) -> Option<(Seq<char>, int)> {
    let e = text_end(b, pos, stop);
    if 0 <= pos && e < b.len() && b[e] == stop {
        match utf8_text(b.subrange(pos, e)) {
            Some(t) => Some((t, e)),
            None => None,
        }
    } else {
        None
    }
}

/// The text that UTF-8 bytes encode, where they are UTF-8.
#[verifier::opaque]
pub open spec fn utf8_text(bytes: Seq<u8>) -> Option<Seq<char>> {
    if valid_utf8(bytes) {
        Some(decode_utf8(bytes))
    } else {
        None
    }
}

// ---------------------------------------------------------------------
// The readers give back what the writers wrote.

pub proof fn lemma_prefix_split(b: Seq<u8>, pos: int, s1: Seq<u8>, s2: Seq<u8>)
    requires
        is_prefix_at(b, pos, s1 + s2),
    ensures
        is_prefix_at(b, pos, s1),
        is_prefix_at(b, pos + s1.len(), s2),
{
    assert((s1 + s2).subrange(0, s1.len() as int) =~= s1);
    assert((s1 + s2).subrange(s1.len() as int, (s1.len() + s2.len()) as int) =~= s2);
    assert(b.subrange(pos, pos + s1.len()) =~= (s1 + s2).subrange(0, s1.len() as int));
    assert(b.subrange(pos + s1.len(), pos + s1.len() + s2.len()) =~= (s1 + s2).subrange(
        s1.len() as int,
        (s1.len() + s2.len()) as int,
    ));
}

pub proof fn lemma_dec_value_digits(n: nat)
    ensures
        dec_value(dec_digits(n)) == n,
    decreases n,
{
    if n >= 10 {
        lemma_dec_value_digits(n / 10);
        assert(dec_digits(n).drop_last() =~= dec_digits(n / 10));
        assert(digit_value(digit(n % 10)) == n % 10);
        assert(dec_digits(n).last() == digit(n % 10));
        assert(dec_value(dec_digits(n)) == dec_value(dec_digits(n / 10)) * 10 + n % 10);
        assert(n == (n / 10) * 10 + n % 10) by (nonlinear_arith);
    } else {
        assert(dec_digits(n).drop_last() =~= Seq::<u8>::empty());
        assert(digit_value(digit(n)) == n);
        assert(dec_value(Seq::<u8>::empty()) == 0);
        assert(dec_digits(n).last() == digit(n));
    }
}

pub proof fn lemma_digits_end(b: Seq<u8>, pos: int, len: int)
    requires
        0 <= pos,
        0 <= len,
        pos + len <= b.len(),
        forall|i: int| pos <= i < pos + len ==> is_dec_byte(#[trigger] b[i]),
        pos + len == b.len() || !is_dec_byte(b[pos + len]),
    ensures
        digits_end(b, pos) == pos + len,
    decreases len,
{
    if len > 0 {
        lemma_digits_end(b, pos + 1, len - 1);
    }
}

/// A decimal number reads back as written, when it is followed by a
/// non-digit (or by the end).
pub proof fn lemma_dec_at(b: Seq<u8>, pos: int, n: nat, max: nat)
    requires
        n <= max,
        is_prefix_at(b, pos, dec_digits(n)),
        pos + dec_digits(n).len() == b.len() || !is_dec_byte(b[pos + dec_digits(n).len()]),
    ensures
        dec_at(b, pos, max) == Some((n, pos + dec_digits(n).len())),
{
    let d = dec_digits(n);
    lemma_dec_digits_all(n);
    assert forall|i: int| pos <= i < pos + d.len() implies is_dec_byte(#[trigger] b[i]) by {
        assert(b[i] == d[i - pos]);
    }
    lemma_digits_end(b, pos, d.len() as int);
    lemma_dec_value_digits(n);
}

pub proof fn lemma_hex_len(n: nat, w: nat)
    requires
        1 <= w,
        n < pow16(w),
    ensures
        hex_digits(n, w).len() == w,
    decreases w,
{
    if !(n < 16 && w <= 1) {
        if w == 1 {
            assert(pow16(1) == 16) by {
                reveal_with_fuel(pow16, 2);
            }
        }
        assert(n / 16 < pow16((w - 1) as nat));
        lemma_hex_len(n / 16, (w - 1) as nat);
    }
}

pub proof fn lemma_hex_value_digits(n: nat, w: nat)
    ensures
        hex_value(hex_digits(n, w)) == n,
    decreases n, w,
{
    if !(n < 16 && w <= 1) {
        let w2: nat = if w > 0 { (w - 1) as nat } else { 0 };
        lemma_hex_value_digits(n / 16, w2);
        assert(hex_digits(n, w).drop_last() =~= hex_digits(n / 16, w2));
        assert(digit_value(digit(n % 16)) == n % 16);
        assert(hex_digits(n, w).last() == digit(n % 16));
        assert(hex_value(hex_digits(n, w)) == hex_value(hex_digits(n / 16, w2)) * 16 + n % 16);
        assert(n == (n / 16) * 16 + n % 16) by (nonlinear_arith);
    } else {
        assert(hex_digits(n, w).drop_last() =~= Seq::<u8>::empty());
        assert(digit_value(digit(n)) == n);
        assert(hex_value(Seq::<u8>::empty()) == 0);
        assert(hex_digits(n, w).last() == digit(n));
    }
}

/// `w` hexadecimal digits read back as written.
pub proof fn lemma_hex_at(b: Seq<u8>, pos: int, n: nat, w: nat)
    requires
        1 <= w,
        n < pow16(w),
        is_prefix_at(b, pos, hex_digits(n, w)),
    ensures
        hex_at(b, pos, w) == Some((n, pos + w)),
{
    let d = hex_digits(n, w);
    lemma_hex_len(n, w);
    lemma_hex_digits_all(n, w);
    assert forall|i: int| pos <= i < pos + w implies is_hex_byte(#[trigger] b[i]) by {
        assert(b[i] == d[i - pos]);
    }
    lemma_hex_value_digits(n, w);
}

pub proof fn lemma_text_end(b: Seq<u8>, pos: int, len: int, stop: u8)
    requires
        0 <= pos,
        0 <= len,
        pos + len < b.len(),
        forall|i: int| pos <= i < pos + len ==> is_text_byte(#[trigger] b[i], stop),
        b[pos + len] == stop,
    ensures
        text_end(b, pos, stop) == pos + len,
    decreases len,
{
    if len > 0 {
        lemma_text_end(b, pos + 1, len - 1, stop);
    }
}

/// An ASCII byte stands in the UTF-8 encoding of text exactly where its
/// character stands in the text: a scalar below 128 is encoded as its own
/// byte, and every byte of any other scalar is 128 or above.
pub proof fn lemma_encode_byte(t: Seq<char>, x: u8)
    requires
        x < 128,
    ensures
        (forall|i: int| 0 <= i < t.len() ==> (#[trigger] t[i]) as u32 != x as u32) <==> (forall|
            j: int,
        | 0 <= j < encode_utf8(t).len() ==> #[trigger] encode_utf8(t)[j] != x),
    decreases t.len(),
{
    if t.len() > 0 {
        let rest = t.drop_first();
        let c = t[0] as u32;
        let es = encode_scalar(c);
        lemma_encode_byte(rest, x);
        assert(encode_utf8(t) == es + encode_utf8(rest));
        assert(c <= 0x7F ==> (c & 0x7F) as u8 == c as u8) by (bit_vector);
        assert(c <= 0x7F ==> (c as u8) as u32 == c) by (bit_vector);
        assert((0xC0u8 | ((c >> 6u32) & 0x1F) as u8) >= 0x80) by (bit_vector);
        assert((0xE0u8 | ((c >> 12u32) & 0x0F) as u8) >= 0x80) by (bit_vector);
        assert((0xF0u8 | ((c >> 18u32) & 0x7) as u8) >= 0x80) by (bit_vector);
        assert((0x80u8 | (c & 0x3F) as u8) >= 0x80) by (bit_vector);
        assert((0x80u8 | ((c >> 6u32) & 0x3F) as u8) >= 0x80) by (bit_vector);
        assert((0x80u8 | ((c >> 12u32) & 0x3F) as u8) >= 0x80) by (bit_vector);
        if c <= 0x7F {
            assert(es == seq![c as u8]);
        } else {
            assert forall|j: int| 0 <= j < es.len() implies es[j] >= 0x80 by {}
        }
        if forall|i: int| 0 <= i < t.len() ==> (#[trigger] t[i]) as u32 != x as u32 {
            assert forall|i: int| 0 <= i < rest.len() implies (#[trigger] rest[i]) as u32
                != x as u32 by {
                assert(rest[i] == t[i + 1]);
            }
            assert(c != x as u32);
            assert forall|j: int| 0 <= j < encode_utf8(t).len() implies #[trigger] encode_utf8(
                t,
            )[j] != x by {
                if j < es.len() {
                    assert(encode_utf8(t)[j] == es[j]);
                } else {
                    assert(encode_utf8(t)[j] == encode_utf8(rest)[j - es.len()]);
                }
            }
        } else {
            let i = choose|i: int| 0 <= i < t.len() && (#[trigger] t[i]) as u32 == x as u32;
            if i == 0 {
                assert(encode_utf8(t)[0] == es[0]);
            } else {
                assert(rest[i - 1] == t[i]);
                let j = choose|j: int|
                    0 <= j < encode_utf8(rest).len() && #[trigger] encode_utf8(rest)[j] == x;
                assert(encode_utf8(t)[es.len() + j] == encode_utf8(rest)[j]);
            }
        }
    }
}

/// One line's text, holding no `stop`, reads back as written when `stop`
/// follows it.
pub proof fn lemma_text_at(b: Seq<u8>, pos: int, t: Seq<char>, stop: u8)
    requires
        stop == 10 || (stop == 32 && word_text(t)),
        line_text(t),
        is_prefix_at(b, pos, encode_utf8(t).push(stop)),
    ensures
        text_at(b, pos, stop) == Some((t, pos + encode_utf8(t).len())),
{
    let e = encode_utf8(t);
    lemma_encode_byte(t, 10);
    lemma_encode_byte(t, stop);
    assert forall|i: int| pos <= i < pos + e.len() implies is_text_byte(#[trigger] b[i], stop) by {
        assert(b[i] == e.push(stop)[i - pos]);
        assert(e[i - pos] != 10);
        assert(e[i - pos] != stop);
    }
    assert(b[pos + e.len()] == e.push(stop)[e.len() as int]);
    lemma_text_end(b, pos, e.len() as int, stop);
    assert(b.subrange(pos, pos + e.len()) =~= e);
    vstd::utf8::encode_utf8_valid_utf8(t);
    vstd::utf8::encode_utf8_decode_utf8(t);
    reveal(utf8_text);
}

/// Text read up to a stop byte holds no newline, and no space either when
/// the stop is a space.
pub proof fn lemma_text_at_ok(b: Seq<u8>, pos: int, stop: u8)
    requires
        stop == 10 || stop == 32,
    ensures
        text_at(b, pos, stop) matches Some((t, e)) ==> line_text(t) && (stop == 32 ==> word_text(t)),
{
    if let Some((t, e)) = text_at(b, pos, stop) {
        reveal(utf8_text);
        lemma_text_run(b, pos, stop);
        let sub = b.subrange(pos, e);
        vstd::utf8::decode_utf8_encode_utf8(sub);
        assert(encode_utf8(t) == sub);
        lemma_encode_byte(t, 10);
        lemma_encode_byte(t, 32);
        assert forall|j: int| 0 <= j < sub.len() implies #[trigger] sub[j] != 10 && (stop == 32
            ==> sub[j] != 32) by {
            assert(sub[j] == b[pos + j]);
            assert(is_text_byte(b[pos + j], stop));
        }
    }
}

pub proof fn lemma_text_run(b: Seq<u8>, p: int, stop: u8)
    requires
        0 <= p,
    ensures
        p <= text_end(b, p, stop),
        forall|i: int| p <= i < text_end(b, p, stop) ==> is_text_byte(#[trigger] b[i], stop),
        p <= b.len() ==> text_end(b, p, stop) <= b.len(),
    decreases b.len() - p,
{
    if 0 <= p < b.len() && is_text_byte(b[p], stop) {
        lemma_text_run(b, p + 1, stop);
    }
}

} // verus!

verus! {

pub proof fn lemma_dec_value_mono(s: Seq<u8>, k: int)
    requires
        0 <= k <= s.len(),
    ensures
        dec_value(s.take(k)) <= dec_value(s),
    decreases s.len(),
{
    if k < s.len() {
        lemma_dec_value_mono(s.drop_last(), k);
        assert(s.drop_last().take(k) =~= s.take(k));
    } else {
        assert(s.take(k) =~= s);
    }
}

pub proof fn lemma_hex_value_bound(s: Seq<u8>)
    ensures
        (forall|i: int| 0 <= i < s.len() ==> is_hex_byte(#[trigger] s[i])) ==> hex_value(s) < pow16(
            s.len(),
        ),
    decreases s.len(),
{
    if s.len() > 0 {
        lemma_hex_value_bound(s.drop_last());
        if forall|i: int| 0 <= i < s.len() ==> is_hex_byte(#[trigger] s[i]) {
            assert forall|i: int| 0 <= i < s.drop_last().len() implies is_hex_byte(
                #[trigger] s.drop_last()[i],
            ) by {
                assert(s.drop_last()[i] == s[i]);
            }
            assert(digit_value(s.last()) < 16);
        }
    }
}

pub proof fn lemma_pow16_mono(a: nat, b: nat)
    requires
        a <= b,
    ensures
        pow16(a) <= pow16(b),
    decreases b,
{
    if a < b {
        lemma_pow16_mono(a, (b - 1) as nat);
    }
}

/// Appends the bytes of a string.
pub fn push_str(out: &mut Vec<u8>, s: &str)
    ensures
        final(out)@ == old(out)@ + vstd::utf8::encode_utf8(s@),
{
    let b = s.as_bytes();
    let mut i: usize = 0;
    while i < b.len()
        invariant
            i <= b@.len(),
            b@ == vstd::utf8::encode_utf8(s@),
            out@ == old(out)@ + b@.take(i as int),
        decreases b.len() - i,
    {
        out.push(b[i]);
        i = i + 1;
        assert(out@ =~= old(out)@ + b@.take(i as int));
    }
    assert(b@.take(b@.len() as int) =~= b@);
}

/// Appends the bytes of an ASCII literal.
pub fn push_lit(out: &mut Vec<u8>, s: &str)
    requires
        vstd::string::is_ascii(s),
    ensures
        final(out)@ == old(out)@ + lit(s),
{
    push_str(out, s);
    proof {
        vstd::string::is_ascii_spec_bytes(s);
    }
    assert(vstd::utf8::encode_utf8(s@) =~= lit(s));
}

/// Reads the literal `s` at `pos`.
pub fn expect_lit(b: &[u8], pos: usize, s: &str) -> (r: Option<usize>)
    requires
        vstd::string::is_ascii(s),
    ensures
        r is Some <==> lit_at(b@, pos as int, lit(s)) is Some,
        r matches Some(p) ==> lit_at(b@, pos as int, lit(s)) == Some(p as int),
{
    let sb = s.as_bytes();
    proof {
        vstd::string::is_ascii_spec_bytes(s);
    }
    assert(sb@ =~= lit(s));
    if pos > b.len() || sb.len() > b.len() - pos {
        return None;
    }
    let mut i: usize = 0;
    while i < sb.len()
        invariant
            i <= sb@.len(),
            pos <= b@.len(),
            b@.len() == b.len(),
            pos + sb@.len() <= b@.len(),
            sb@ == lit(s),
            forall|j: int| 0 <= j < i ==> b@[pos + j] == sb@[j],
        decreases sb.len() - i,
    {
        if b[pos + i] != sb[i] {
            assert(b@.subrange(pos as int, pos + sb@.len())[i as int] != sb@[i as int]);
            return None;
        }
        i = i + 1;
    }
    assert(b@.subrange(pos as int, pos + sb@.len()) =~= sb@);
    Some(pos + sb.len())
}

/// Reads a decimal number no greater than `max` at `pos`.
pub fn parse_dec(b: &[u8], pos: usize, max: u64) -> (r: Option<(u64, usize)>)
    ensures
        r is Some <==> dec_at(b@, pos as int, max as nat) is Some,
        r matches Some((v, p)) ==> dec_at(b@, pos as int, max as nat) == Some((v as nat, p as int)),
{
    if pos >= b.len() {
        return None;
    }
    let mut i: usize = pos;
    let mut v: u64 = 0;
    while i < b.len() && 48 <= b[i] && b[i] <= 57
        invariant
            pos <= i <= b@.len(),
            digits_end(b@, pos as int) == digits_end(b@, i as int),
            forall|j: int| pos <= j < i ==> is_dec_byte(#[trigger] b@[j]),
            v as nat == dec_value(b@.subrange(pos as int, i as int)),
            v <= max,
        decreases b.len() - i,
    {
        let d = b[i] - 48;
        let w: u128 = (v as u128) * 10 + (d as u128);
        assert(b@.subrange(pos as int, i + 1).drop_last() =~= b@.subrange(pos as int, i as int));
        if w > max as u128 {
            proof {
                let e = digits_end(b@, pos as int);
                assert(digits_end(b@, i as int) == digits_end(b@, i + 1));
                lemma_digits_run(b@, i as int + 1);
                lemma_dec_value_mono(b@.subrange(pos as int, e), i + 1 - pos);
                assert(b@.subrange(pos as int, e).take(i + 1 - pos) =~= b@.subrange(
                    pos as int,
                    i + 1,
                ));
            }
            return None;
        }
        v = w as u64;
        i = i + 1;
    }
    if i == pos {
        return None;
    }
    Some((v, i))
}

/// The digit run from `p` on ends no earlier than `p`.
pub proof fn lemma_digits_run(b: Seq<u8>, p: int)
    requires
        0 <= p,
    ensures
        p <= digits_end(b, p),
        p <= b.len() ==> digits_end(b, p) <= b.len(),
    decreases b.len() - p,
{
    if 0 <= p < b.len() && is_dec_byte(b[p]) {
        lemma_digits_run(b, p + 1);
    }
}

} // verus!

verus! {

pub proof fn lemma_pow16_32()
    ensures
        pow16(31) * 16 == u128::MAX + 1,
        pow16(32) == u128::MAX + 1,
{
    reveal_with_fuel(pow16, 33);
}

/// Reads exactly `w` upper-case hexadecimal digits at `pos`.
pub fn parse_hex(b: &[u8], pos: usize, w: usize) -> (r: Option<(u128, usize)>)
    requires
        w <= 32,
    ensures
        r is Some <==> hex_at(b@, pos as int, w as nat) is Some,
        r matches Some((v, p)) ==> hex_at(b@, pos as int, w as nat) == Some((v as nat, p as int)),
{
    if pos > b.len() || w > b.len() - pos {
        return None;
    }
    let mut j: usize = 0;
    let mut v: u128 = 0;
    while j < w
        invariant
            j <= w <= 32,
            pos + w <= b@.len(),
            b@.len() == b.len(),
            forall|k: int| pos <= k < pos + j ==> is_hex_byte(#[trigger] b@[k]),
            v as nat == hex_value(b@.subrange(pos as int, pos + j)),
            v < pow16(j as nat),
        decreases w - j,
    {
        let x = b[pos + j];
        let d: u128 = if 48 <= x && x <= 57 {
            (x - 48) as u128
        } else if 65 <= x && x <= 70 {
            (x - 55) as u128
        } else {
            assert(!is_hex_byte(b@[pos + j]));
            return None;
        };
        proof {
            lemma_pow16_mono(j as nat, 31);
            lemma_pow16_32();
            assert(b@.subrange(pos as int, pos + j + 1).drop_last() =~= b@.subrange(
                pos as int,
                pos + j,
            ));
        }
        v = v * 16 + d;
        j = j + 1;
    }
    Some((v, pos + w))
}

/// `String::from_utf8`: the bytes as a `String` where they are UTF-8, else
/// `None`. The `String` holds exactly those bytes.
#[verifier::external_body]
fn string_from_utf8(bytes: Vec<u8>) -> (r: Option<String>)
    ensures
        r is Some <==> valid_utf8(bytes@),
        r matches Some(s) ==> encode_utf8(s@) == bytes@,
{
    String::from_utf8(bytes).ok()
}

/// Reads UTF-8 text at `pos` up to the byte `stop`.
pub fn parse_text(b: &[u8], pos: usize, stop: u8) -> (r: Option<(String, usize)>)
    ensures
        r is Some <==> text_at(b@, pos as int, stop) is Some,
        r matches Some((t, p)) ==> text_at(b@, pos as int, stop) == Some((t@, p as int)),
        r matches Some((t, p)) ==> p < b.len(),
{
    if pos > b.len() {
        return None;
    }
    let mut i: usize = pos;
    while i < b.len() && b[i] != 10 && b[i] != stop
        invariant
            pos <= i <= b@.len(),
            text_end(b@, pos as int, stop) == text_end(b@, i as int, stop),
        decreases b.len() - i,
    {
        i = i + 1;
    }
    if !(i < b.len() && b[i] == stop) {
        return None;
    }
    let mut v: Vec<u8> = Vec::new();
    let mut k: usize = pos;
    while k < i
        invariant
            pos <= k <= i < b@.len(),
            v@ == b@.subrange(pos as int, k as int),
        decreases i - k,
    {
        v.push(b[k]);
        k = k + 1;
        assert(v@ =~= b@.subrange(pos as int, k as int));
    }
    match string_from_utf8(v) {
        Some(s) => {
            proof {
                vstd::utf8::encode_utf8_decode_utf8(s@);
                reveal(utf8_text);
            }
            Some((s, i))
        },
        None => {
            proof {
                reveal(utf8_text);
            }
            None
        },
    }
}

} // verus!

verus! {

/// Reads the byte `x` at `pos`.
pub fn expect_byte(b: &[u8], pos: usize, x: u8) -> (r: Option<usize>)
    ensures
        r is Some <==> lit_at(b@, pos as int, seq![x]) is Some,
        r matches Some(p) ==> lit_at(b@, pos as int, seq![x]) == Some(p as int),
{
    if pos < b.len() && b[pos] == x {
        assert(b@.subrange(pos as int, pos + 1) =~= seq![x]);
        Some(pos + 1)
    } else {
        proof {
            if pos < b.len() {
                assert(b@.subrange(pos as int, pos + 1)[0] == b@[pos as int]);
            }
        }
        None
    }
}

pub proof fn lemma_prefix_join(b: Seq<u8>, pos: int, s1: Seq<u8>, s2: Seq<u8>)
    requires
        is_prefix_at(b, pos, s1),
        is_prefix_at(b, pos + s1.len(), s2),
    ensures
        is_prefix_at(b, pos, s1 + s2),
{
    assert(b.subrange(pos, pos + s1.len() + s2.len()) =~= s1 + s2) by {
        assert forall|i: int| 0 <= i < s1.len() + s2.len() implies b.subrange(
            pos,
            pos + s1.len() + s2.len(),
        )[i] == (s1 + s2)[i] by {
            if i < s1.len() {
                assert(b.subrange(pos, pos + s1.len())[i] == s1[i]);
            } else {
                assert(b.subrange(pos + s1.len(), pos + s1.len() + s2.len())[i - s1.len()]
                    == s2[i - s1.len()]);
            }
        }
    }
}

pub proof fn lemma_prefix_byte(b: Seq<u8>, pos: int, s: Seq<u8>, i: int)
    requires
        is_prefix_at(b, pos, s),
        0 <= i < s.len(),
    ensures
        b[pos + i] == s[i],
{
    assert(b.subrange(pos, pos + s.len())[i] == b[pos + i]);
}

} // verus!

verus! {

/// Text's bytes, piece by piece.
pub proof fn lemma_text_bytes_concat(a: Seq<char>, b: Seq<char>)
    ensures
        text_bytes(a + b) == text_bytes(a) + text_bytes(b),
{
    assert(text_bytes(a + b) =~= text_bytes(a) + text_bytes(b));
}

/// ASCII bytes read as characters give back their bytes.
pub proof fn lemma_text_bytes_ascii(d: Seq<u8>)
    ensures
        text_bytes(ascii_chars(d)) == d,
{
    assert(text_bytes(ascii_chars(d)) =~= d);
}

/// A literal that stands at `p`, followed by `rest`, reads; `rest` follows.
pub proof fn lemma_lit_then(b: Seq<u8>, p: int, l: Seq<u8>, rest: Seq<u8>)
    requires
        is_prefix_at(b, p, l + rest),
    ensures
        lit_at(b, p, l) == Some(p + l.len()),
        is_prefix_at(b, p + l.len(), rest),
{
    lemma_prefix_split(b, p, l, rest);
}

/// Where the run of hexadecimal digits that starts at `pos` ends.
pub open spec fn hex_end(b: Seq<u8>, pos: int) -> int
    decreases b.len() - pos,
{
    if 0 <= pos < b.len() && is_hex_byte(b[pos]) {
        hex_end(b, pos + 1)
    } else {
        pos
    }
}

/// Reads a hexadecimal number of any width at `pos`: at least one digit,
/// the whole run of digits.
pub open spec fn hex_run_at(b: Seq<u8>, pos: int) -> Option<(nat, int)> {
    let e = hex_end(b, pos);
    if 0 <= pos < e {
        Some((hex_value(b.subrange(pos, e)), e))
    } else {
        None
    }
}

proof fn lemma_hex_end(b: Seq<u8>, pos: int, len: int)
    requires
        0 <= pos,
        0 <= len,
        pos + len <= b.len(),
        forall|i: int| pos <= i < pos + len ==> is_hex_byte(#[trigger] b[i]),
        pos + len == b.len() || !is_hex_byte(b[pos + len]),
    ensures
        hex_end(b, pos) == pos + len,
    decreases len,
{
    if len > 0 {
        lemma_hex_end(b, pos + 1, len - 1);
    }
}

/// The hexadecimal digits of `n`, zero-padded to `w`, read back as `n`,
/// when a non-digit (or the end) follows them.
pub proof fn lemma_hex_run_at(b: Seq<u8>, pos: int, n: nat, w: nat)
    requires
        is_prefix_at(b, pos, hex_digits(n, w)),
        pos + hex_digits(n, w).len() == b.len() || !is_hex_byte(b[pos + hex_digits(n, w).len()]),
    ensures
        hex_run_at(b, pos) == Some((n, pos + hex_digits(n, w).len())),
{
    let d = hex_digits(n, w);
    lemma_hex_digits_all(n, w);
    assert forall|i: int| pos <= i < pos + d.len() implies is_hex_byte(#[trigger] b[i]) by {
        assert(b[i] == d[i - pos]);
    }
    lemma_hex_end(b, pos, d.len() as int);
    lemma_hex_value_digits(n, w);
}

} // verus!

verus! {

/// The UTF-8 encoding of text, piece by piece.
pub proof fn lemma_encode_concat(a: Seq<char>, b: Seq<char>)
    ensures
        encode_utf8(a + b) == encode_utf8(a) + encode_utf8(b),
    decreases a.len(),
{
    if a.len() == 0 {
        assert(a + b =~= b);
        assert(encode_utf8(a) =~= Seq::<u8>::empty());
        assert(encode_utf8(a) + encode_utf8(b) =~= encode_utf8(b));
    } else {
        lemma_encode_concat(a.drop_first(), b);
        assert((a + b).drop_first() =~= a.drop_first() + b);
        assert((a + b)[0] == a[0]);
        assert(encode_utf8(a + b) =~= encode_utf8(a) + encode_utf8(b));
    }
}

/// ASCII characters are encoded as their own bytes.
pub proof fn lemma_encode_ascii(t: Seq<char>)
    requires
        vstd::utf8::is_ascii_chars(t),
    ensures
        encode_utf8(t) == text_bytes(t),
{
    vstd::utf8::is_ascii_chars_encode_utf8(t);
    assert(encode_utf8(t) =~= text_bytes(t));
}

/// ASCII bytes read as characters are encoded as those bytes.
pub proof fn lemma_encode_ascii_bytes(d: Seq<u8>)
    requires
        forall|i: int| 0 <= i < d.len() ==> #[trigger] d[i] < 128,
    ensures
        encode_utf8(ascii_chars(d)) == d,
{
    assert(vstd::utf8::is_ascii_chars(ascii_chars(d))) by {
        assert forall|i: int| 0 <= i < ascii_chars(d).len() implies '\0' <= #[trigger] ascii_chars(
            d,
        )[i] <= '\u{7f}' by {
            assert(ascii_chars(d)[i] == d[i] as char);
        }
    }
    lemma_encode_ascii(ascii_chars(d));
    assert(text_bytes(ascii_chars(d)) =~= d);
}

/// Text that holds neither a newline nor the ASCII byte `stop` reads back
/// as written when `stop` follows it.
pub proof fn lemma_text_at_any(b: Seq<u8>, pos: int, t: Seq<char>, stop: u8)
    requires
        stop < 128,
        line_text(t),
        forall|i: int| 0 <= i < t.len() ==> (#[trigger] t[i]) as u32 != stop as u32,
        is_prefix_at(b, pos, encode_utf8(t).push(stop)),
    ensures
        text_at(b, pos, stop) == Some((t, pos + encode_utf8(t).len())),
{
    let e = encode_utf8(t);
    lemma_encode_byte(t, 10);
    lemma_encode_byte(t, stop);
    assert forall|i: int| pos <= i < pos + e.len() implies is_text_byte(#[trigger] b[i], stop) by {
        assert(b[i] == e.push(stop)[i - pos]);
        assert(e[i - pos] != 10);
        assert(e[i - pos] != stop);
    }
    assert(b[pos + e.len()] == e.push(stop)[e.len() as int]);
    lemma_text_end(b, pos, e.len() as int, stop);
    assert(b.subrange(pos, pos + e.len()) =~= e);
    vstd::utf8::encode_utf8_valid_utf8(t);
    vstd::utf8::encode_utf8_decode_utf8(t);
    reveal(utf8_text);
}

/// The text that the bytes from `pos` to the end encode, where they are
/// UTF-8.
pub open spec fn rest_text_at(b: Seq<u8>, pos: int) -> Option<Seq<char>> {
    if 0 <= pos <= b.len() {
        utf8_text(b.subrange(pos, b.len() as int))
    } else {
        None
    }
}

/// Text that ends the bytes reads back as written.
pub proof fn lemma_rest_text_at(b: Seq<u8>, pos: int, t: Seq<char>)
    requires
        0 <= pos,
        pos + encode_utf8(t).len() == b.len(),
        is_prefix_at(b, pos, encode_utf8(t)),
    ensures
        rest_text_at(b, pos) == Some(t),
{
    vstd::utf8::encode_utf8_valid_utf8(t);
    vstd::utf8::encode_utf8_decode_utf8(t);
    reveal(utf8_text);
}

} // verus!
