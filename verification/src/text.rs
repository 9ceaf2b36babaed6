//! Text building blocks: decimal and hexadecimal digits as ASCII bytes, and
//! growing a `String` whose view is known.
use vstd::prelude::*;

verus! {

/// The ASCII digit for a value below 16: `0`-`9`, then upper-case `A`-`F`.
pub open spec fn digit(d: nat) -> u8 {
    if d < 10 {
        (48 + d) as u8
    } else {
        (55 + d) as u8
    }
}

/// The decimal digits of `n`, most significant first, with no leading zero.
pub open spec fn dec_digits(n: nat) -> Seq<u8>
    decreases n,
{
    if n < 10 {
        seq![digit(n)]
    } else {
        dec_digits(n / 10).push(digit(n % 10))
    }
}

/// The upper-case hexadecimal digits of `n`, zero-padded to at least `width`
/// digits (the `{:0width$X}` form; `width` 0 or 1 gives the bare digits).
pub open spec fn hex_digits(n: nat, width: nat) -> Seq<u8>
    decreases n, width,
{
    if n < 16 && width <= 1 {
        seq![digit(n)]
    } else {
        hex_digits(n / 16, if width > 0 { (width - 1) as nat } else { 0 }).push(digit(n % 16))
    }
}

/// The binary digits of `n`, zero-padded to at least `width` digits (the
/// `{:0width$b}` form).
pub open spec fn bin_digits(n: nat, width: nat) -> Seq<u8>
    decreases n, width,
{
    if n < 2 && width <= 1 {
        seq![digit(n)]
    } else {
        bin_digits(n / 2, if width > 0 { (width - 1) as nat } else { 0 }).push(digit(n % 2))
    }
}

/// ASCII bytes read as characters.
pub open spec fn ascii_chars(bytes: Seq<u8>) -> Seq<char> {
    bytes.map_values(|b: u8| b as char)
}

/// The decimal digits of `n` as characters.
pub open spec fn dec_text(n: nat) -> Seq<char> {
    ascii_chars(dec_digits(n))
}

/// The upper-case hexadecimal digits of `n`, zero-padded to `width`, as
/// characters.
pub open spec fn hex_text(n: nat, width: nat) -> Seq<char> {
    ascii_chars(hex_digits(n, width))
}

/// The binary digits of `n`, zero-padded to `width`, as characters.
pub open spec fn bin_text(n: nat, width: nat) -> Seq<char> {
    ascii_chars(bin_digits(n, width))
}

/// `n` spaces, then `s`, when `s` is shorter than `width` (the `{:>width$}`
/// form); `s` itself otherwise.
pub open spec fn pad_left(s: Seq<u8>, width: nat) -> Seq<u8> {
    if s.len() < width {
        Seq::new((width - s.len()) as nat, |i: int| 32u8) + s
    } else {
        s
    }
}

/// `s`, then spaces up to `width` (the `{:<width$}` form).
pub open spec fn pad_right(s: Seq<char>, width: nat) -> Seq<char> {
    if s.len() < width {
        s + Seq::new((width - s.len()) as nat, |i: int| ' ')
    } else {
        s
    }
}

pub fn digit_byte(d: u8) -> (b: u8)
    requires
        d < 16,
    ensures
        b == digit(d as nat),
{
    if d < 10 {
        48 + d
    } else {
        55 + d
    }
}

/// Appends the decimal digits of `n`.
pub fn push_dec(out: &mut Vec<u8>, n: u64)
    ensures
        final(out)@ == old(out)@ + dec_digits(n as nat),
    decreases n,
{
    if n < 10 {
        out.push(digit_byte(n as u8));
        assert(old(out)@.push(digit(n as nat)) =~= old(out)@ + dec_digits(n as nat));
    } else {
        push_dec(out, n / 10);
        out.push(digit_byte((n % 10) as u8));
        assert(old(out)@ + dec_digits((n / 10) as nat) + seq![digit((n % 10) as nat)]
            =~= old(out)@ + dec_digits(n as nat));
    }
}

/// Appends the upper-case hexadecimal digits of `n`, zero-padded to `width`.
pub fn push_hex(out: &mut Vec<u8>, n: u128, width: usize)
    ensures
        final(out)@ == old(out)@ + hex_digits(n as nat, width as nat),
    decreases n, width,
{
    if n < 16 && width <= 1 {
        out.push(digit_byte(n as u8));
        assert(old(out)@.push(digit(n as nat)) =~= old(out)@ + hex_digits(n as nat, width as nat));
    } else {
        let w = if width > 0 { width - 1 } else { 0 };
        push_hex(out, n / 16, w);
        out.push(digit_byte((n % 16) as u8));
        assert(old(out)@ + hex_digits((n / 16) as nat, w as nat) + seq![digit((n % 16) as nat)]
            =~= old(out)@ + hex_digits(n as nat, width as nat));
    }
}

/// Appends the binary digits of `n`, zero-padded to `width`.
pub fn push_bin(out: &mut Vec<u8>, n: u64, width: usize)
    ensures
        final(out)@ == old(out)@ + bin_digits(n as nat, width as nat),
    decreases n, width,
{
    if n < 2 && width <= 1 {
        out.push(digit_byte(n as u8));
        assert(old(out)@.push(digit(n as nat)) =~= old(out)@ + bin_digits(n as nat, width as nat));
    } else {
        let w = if width > 0 { width - 1 } else { 0 };
        push_bin(out, n / 2, w);
        out.push(digit_byte((n % 2) as u8));
        assert(old(out)@ + bin_digits((n / 2) as nat, w as nat) + seq![digit((n % 2) as nat)]
            =~= old(out)@ + bin_digits(n as nat, width as nat));
    }
}

/// Appends `count` copies of `b`.
pub fn push_repeat(out: &mut Vec<u8>, b: u8, count: usize)
    ensures
        final(out)@ == old(out)@ + Seq::new(count as nat, |i: int| b),
{
    let mut i: usize = 0;
    while i < count
        invariant
            i <= count,
            out@ == old(out)@ + Seq::new(i as nat, |j: int| b),
        decreases count - i,
    {
        out.push(b);
        i = i + 1;
        assert(out@ =~= old(out)@ + Seq::new(i as nat, |j: int| b));
    }
}

/// Appends the decimal digits of `n`, right-aligned in `width` columns.
pub fn push_dec_padded(out: &mut Vec<u8>, n: u64, width: usize)
    ensures
        final(out)@ == old(out)@ + pad_left(dec_digits(n as nat), width as nat),
{
    let mut digits: Vec<u8> = Vec::new();
    push_dec(&mut digits, n);
    assert(digits@ =~= dec_digits(n as nat));
    if digits.len() < width {
        push_repeat(out, 32u8, width - digits.len());
    }
    let mut i: usize = 0;
    let ghost start = out@;
    while i < digits.len()
        invariant
            i <= digits.len(),
            out@ == start + digits@.take(i as int),
        decreases digits.len() - i,
    {
        out.push(digits[i]);
        i = i + 1;
        assert(out@ =~= start + digits@.take(i as int));
    }
    assert(digits@.take(digits.len() as int) =~= digits@);
    assert(out@ =~= old(out)@ + pad_left(dec_digits(n as nat), width as nat));
}

/// `String::push`: appends one character.
#[verifier::external_body]
pub fn push_char(s: &mut String, c: char)
    ensures
        final(s)@ == old(s)@.push(c),
{
    s.push(c);
}

/// Appends ASCII bytes as characters.
pub fn push_ascii(s: &mut String, bytes: &Vec<u8>)
    requires
        forall|i: int| 0 <= i < bytes@.len() ==> bytes@[i] < 128,
    ensures
        final(s)@ == old(s)@ + ascii_chars(bytes@),
{
    let mut i: usize = 0;
    while i < bytes.len()
        invariant
            i <= bytes.len(),
            forall|j: int| 0 <= j < bytes@.len() ==> bytes@[j] < 128,
            s@ == old(s)@ + ascii_chars(bytes@.take(i as int)),
        decreases bytes.len() - i,
    {
        let b = bytes[i];
        push_char(s, b as char);
        i = i + 1;
        assert(ascii_chars(bytes@.take(i as int)) =~= ascii_chars(bytes@.take((i - 1) as int)).push(
            b as char,
        ));
    }
    assert(bytes@.take(bytes.len() as int) =~= bytes@);
}

} // verus!

verus! {

/// Every byte of `s` is an ASCII digit (`0`-`9` or `A`-`F`).
pub open spec fn all_digits(s: Seq<u8>) -> bool {
    forall|i: int|
        0 <= i < s.len() ==> (48 <= #[trigger] s[i] <= 57 || 65 <= s[i] <= 70)
}

pub proof fn lemma_digit_range(d: nat)
    requires
        d < 16,
    ensures
        48 <= digit(d) <= 57 || 65 <= digit(d) <= 70,
        d < 10 ==> 48 <= digit(d) <= 57,
{
}

pub proof fn lemma_dec_digits_all(n: nat)
    ensures
        all_digits(dec_digits(n)),
        forall|i: int| 0 <= i < dec_digits(n).len() ==> 48 <= #[trigger] dec_digits(n)[i] <= 57,
        dec_digits(n).len() >= 1,
    decreases n,
{
    if n >= 10 {
        lemma_dec_digits_all(n / 10);
        lemma_digit_range(n % 10);
    }
}

pub proof fn lemma_hex_digits_all(n: nat, width: nat)
    ensures
        all_digits(hex_digits(n, width)),
        hex_digits(n, width).len() >= 1,
    decreases n, width,
{
    if !(n < 16 && width <= 1) {
        lemma_hex_digits_all(n / 16, if width > 0 { (width - 1) as nat } else { 0 });
        lemma_digit_range(n % 16);
    } else {
        lemma_digit_range(n);
    }
}

pub proof fn lemma_bin_digits_all(n: nat, width: nat)
    ensures
        forall|i: int| 0 <= i < bin_digits(n, width).len() ==> 48 <= #[trigger] bin_digits(n, width)[i]
            <= 49,
    decreases n, width,
{
    if !(n < 2 && width <= 1) {
        let w2: nat = if width > 0 { (width - 1) as nat } else { 0 };
        lemma_bin_digits_all(n / 2, w2);
        let d = bin_digits(n, width);
        assert(d == bin_digits(n / 2, w2).push(digit(n % 2)));
        assert forall|i: int| 0 <= i < d.len() implies 48 <= #[trigger] d[i] <= 49 by {
            if i < d.len() - 1 {
                assert(d[i] == bin_digits(n / 2, w2)[i]);
            }
        }
    }
}

/// Appends the binary digits of `n`, zero-padded to `width`, as characters.
pub fn push_bin_str(s: &mut String, n: u64, width: usize)
    ensures
        final(s)@ == old(s)@ + ascii_chars(bin_digits(n as nat, width as nat)),
{
    let mut b: Vec<u8> = Vec::new();
    push_bin(&mut b, n, width);
    proof {
        lemma_bin_digits_all(n as nat, width as nat);
        assert(b@ =~= bin_digits(n as nat, width as nat));
    }
    push_ascii(s, &b);
}

/// Appends the decimal digits of `n` as characters.
pub fn push_dec_str(s: &mut String, n: u64)
    ensures
        final(s)@ == old(s)@ + ascii_chars(dec_digits(n as nat)),
{
    let mut b: Vec<u8> = Vec::new();
    push_dec(&mut b, n);
    proof {
        lemma_dec_digits_all(n as nat);
        assert(b@ =~= dec_digits(n as nat));
    }
    push_ascii(s, &b);
}

/// Appends the upper-case hexadecimal digits of `n`, zero-padded to `width`,
/// as characters.
pub fn push_hex_str(s: &mut String, n: u128, width: usize)
    ensures
        final(s)@ == old(s)@ + ascii_chars(hex_digits(n as nat, width as nat)),
{
    let mut b: Vec<u8> = Vec::new();
    push_hex(&mut b, n, width);
    proof {
        lemma_hex_digits_all(n as nat, width as nat);
        assert(b@ =~= hex_digits(n as nat, width as nat));
    }
    push_ascii(s, &b);
}

} // verus!

verus! {

/// The characters of a string.
pub fn chars_of(s: &str) -> (v: Vec<char>)
    ensures
        v@ == s@,
{
    let mut v: Vec<char> = Vec::new();
    for c in it: s.chars()
        invariant
            v@ == it.seq().take(it.index() as int),
            it.seq() == s@,
    {
        v.push(c);
    }
    v
}

} // verus!
