//! The refusals a reader makes before it trusts a byte: the version gate,
//! the version it implements, and the header's required fields.
use vstd::prelude::*;
use crate::wire::{lit, is_dec_byte, push_lit, expect_lit};
use crate::text::ascii_chars;

verus! {

/// Where the line that holds position `p` ends: the first newline at or
/// after `p`, or the end of the bytes.
pub open spec fn find_nl(b: Seq<u8>, p: int) -> int
    decreases b.len() - p,
{
    if p < 0 || p >= b.len() {
        b.len() as int
    } else if b[p] == 10 {
        p
    } else {
        find_nl(b, p + 1)
    }
}

/// Where line `k` starts.
pub open spec fn line_start(b: Seq<u8>, k: nat) -> int
    decreases k,
{
    if k == 0 {
        0
    } else {
        find_nl(b, line_start(b, (k - 1) as nat)) + 1
    }
}

/// The literal that opens the version gate.
pub open spec fn gate_prefix() -> Seq<u8> {
    lit("LUCID-CAPTURE v")
}

/// The first line is a newline-terminated line that opens with the version
/// literal.
pub open spec fn has_gate(b: Seq<u8>) -> bool {
    let e = find_nl(b, 0);
    e < b.len() && 15 <= e && b.subrange(0, 15) == gate_prefix()
}

/// The version the first line names.
pub open spec fn version_token(b: Seq<u8>) -> Seq<u8> {
    b.subrange(15, find_nl(b, 0))
}

/// A version token: one or more decimal digits.
pub open spec fn is_number(t: Seq<u8>) -> bool {
    t.len() > 0 && forall|i: int| 0 <= i < t.len() ==> is_dec_byte(#[trigger] t[i])
}

/// The key each header line opens with, after the first.
pub open spec fn header_key(k: int) -> &'static str {
    if k == 1 {
        "trace_format"
    } else if k == 2 {
        "tool"
    } else if k == 3 {
        "deps"
    } else if k == 4 {
        "run_mode"
    } else if k == 5 {
        "instrument"
    } else if k == 6 {
        "timestamp_domain_hz"
    } else if k == 7 {
        "seed"
    } else if k == 8 {
        "header"
    } else {
        "schema"
    }
}

/// Line `k` is newline-terminated and opens with `key`, followed by a space
/// or by the end of the line.
pub open spec fn line_has_key(b: Seq<u8>, k: nat, key: Seq<u8>) -> bool {
    let s = line_start(b, k);
    let e = find_nl(b, s);
    &&& e < b.len()
    &&& s + key.len() <= e
    &&& b.subrange(s, s + key.len()) == key
    &&& (s + key.len() == e || b[s + key.len()] == 32)
}

/// The first header line, from `k` on, that does not open with its key; 10
/// when there is none.
pub open spec fn first_missing_from(b: Seq<u8>, k: nat) -> nat
    decreases 10 - k,
{
    if k >= 10 {
        10
    } else if !line_has_key(b, k, lit(header_key(k as int))) {
        k
    } else {
        first_missing_from(b, k + 1)
    }
}

/// The refusal of a file with no version gate.
pub open spec fn gate_refusal() -> Seq<char> {
    "no version gate: the first line is not 'LUCID-CAPTURE v<version>'"@
}

/// The refusal of a file whose version this reader does not implement.
pub open spec fn version_refusal(token: Seq<u8>) -> Seq<char> {
    "unsupported container version "@ + ascii_chars(token) + " (this reader implements version 1)"@
}

/// The refusal of a file whose header lacks a required field.
pub open spec fn missing_refusal(k: nat) -> Seq<char> {
    "missing required field: "@ + header_key(k as int)@
}

/// What the version check and the header make of `b`: `None` when both pass, else
/// the refusal's words.
pub open spec fn gate_verdict(b: Seq<u8>) -> Option<Seq<char>> {
    if !has_gate(b) {
        Some(gate_refusal())
    } else if version_token(b) != lit("1") {
        if is_number(version_token(b)) {
            Some(version_refusal(version_token(b)))
        } else {
            Some(gate_refusal())
        }
    } else if first_missing_from(b, 1) < 10 {
        Some(missing_refusal(first_missing_from(b, 1)))
    } else {
        None
    }
}

/// Finds the end of the line that holds `p`.
pub fn next_nl(b: &[u8], p: usize) -> (e: usize)
    ensures
        e as int == find_nl(b@, p as int),
{
    let mut i = p;
    if i >= b.len() {
        return b.len();
    }
    while i < b.len() && b[i] != 10
        invariant
            p <= i <= b@.len(),
            find_nl(b@, p as int) == find_nl(b@, i as int),
        decreases b.len() - i,
    {
        i = i + 1;
    }
    i
}

pub proof fn lemma_find_nl_bounds(b: Seq<u8>, p: int)
    requires
        0 <= p,
    ensures
        p <= b.len() ==> p <= find_nl(b, p) <= b.len(),
        find_nl(b, p) < b.len() ==> b[find_nl(b, p)] == 10,
        forall|i: int| p <= i < find_nl(b, p) ==> #[trigger] b[i] != 10,
    decreases b.len() - p,
{
    if p < b.len() && b[p] != 10 {
        lemma_find_nl_bounds(b, p + 1);
    }
}

pub fn key_str(k: usize) -> (s: &'static str)
    requires
        1 <= k <= 9,
    ensures
        s == header_key(k as int),
{
    if k == 1 {
        "trace_format"
    } else if k == 2 {
        "tool"
    } else if k == 3 {
        "deps"
    } else if k == 4 {
        "run_mode"
    } else if k == 5 {
        "instrument"
    } else if k == 6 {
        "timestamp_domain_hz"
    } else if k == 7 {
        "seed"
    } else if k == 8 {
        "header"
    } else {
        "schema"
    }
}

pub proof fn lemma_keys_ascii(k: int)
    requires
        1 <= k <= 9,
    ensures
        vstd::string::is_ascii(header_key(k)),
{
    reveal_strlit("trace_format");
    reveal_strlit("tool");
    reveal_strlit("deps");
    reveal_strlit("run_mode");
    reveal_strlit("instrument");
    reveal_strlit("timestamp_domain_hz");
    reveal_strlit("seed");
    reveal_strlit("header");
    reveal_strlit("schema");
}

/// Whether line `k`, which starts at `s`, opens with its key.
fn check_key(b: &[u8], s: usize, k: usize) -> (ok: bool)
    requires
        1 <= k <= 9,
        s <= b@.len(),
    ensures
        ok == line_has_key_at(b@, s as int, lit(header_key(k as int))),
{
    let key = key_str(k);
    proof {
        lemma_keys_ascii(k as int);
        lemma_find_nl_bounds(b@, s as int);
    }
    let e = next_nl(b, s);
    if e >= b.len() {
        return false;
    }
    match expect_lit(b, s, key) {
        None => false,
        Some(q) => q <= e && (q == e || b[q] == 32),
    }
}

/// `line_has_key`, for a line that starts at `s`.
pub open spec fn line_has_key_at(b: Seq<u8>, s: int, key: Seq<u8>) -> bool {
    let e = find_nl(b, s);
    &&& e < b.len()
    &&& s + key.len() <= e
    &&& b.subrange(s, s + key.len()) == key
    &&& (s + key.len() == e || b[s + key.len()] == 32)
}

} // verus!

verus! {

/// Appends the ASCII bytes `b[from..to]` as characters.
pub fn push_ascii_range(s: &mut String, b: &[u8], from: usize, to: usize)
    requires
        from <= to <= b@.len(),
        forall|i: int| from <= i < to ==> b@[i] < 128,
    ensures
        final(s)@ == old(s)@ + ascii_chars(b@.subrange(from as int, to as int)),
{
    let mut i = from;
    while i < to
        invariant
            from <= i <= to <= b@.len(),
            s@ == old(s)@ + ascii_chars(b@.subrange(from as int, i as int)),
        decreases to - i,
    {
        crate::text::push_char(s, b[i] as char);
        assert(ascii_chars(b@.subrange(from as int, i + 1)) =~= ascii_chars(
            b@.subrange(from as int, i as int),
        ).push(b@[i as int] as char));
        i = i + 1;
    }
}

/// The version and header checks: `None` when both pass, else the refusal's
/// words.
pub fn check_gate(b: &[u8]) -> (r: Option<String>)
    ensures
        match r {
            None => gate_verdict(b@) is None,
            Some(m) => gate_verdict(b@) == Some(m@),
        },
{
    proof {
        reveal_strlit("LUCID-CAPTURE v");
        reveal_strlit("1");
        lemma_find_nl_bounds(b@, 0);
        assert(lit("1").len() == 1);
        assert(lit("1")[0] == 49);
    }
    let e0 = next_nl(b, 0);
    let gate = expect_lit(b, 0, "LUCID-CAPTURE v");
    if e0 >= b.len() || e0 < 15 || gate.is_none() {
        assert(!has_gate(b@));
        return Some(String::from_str("no version gate: the first line is not 'LUCID-CAPTURE v<version>'"));
    }
    assert(has_gate(b@));
    if !(e0 == 16 && b[15] == 49) {
        assert(version_token(b@) != lit("1")) by {
            if e0 == 16 {
                assert(version_token(b@)[0] == b@[15]);
            }
        }
        let mut j: usize = 15;
        let ghost tok = b@.subrange(15, e0 as int);
        assert(tok == version_token(b@));
        while j < e0
            invariant
                15 <= j <= e0,
                e0 < b@.len(),
                e0 == find_nl(b@, 0),
                has_gate(b@),
                tok == version_token(b@),
                tok != lit("1"),
                tok == b@.subrange(15, e0 as int),
                forall|i: int| 15 <= i < j ==> is_dec_byte(#[trigger] b@[i]),
            decreases e0 - j,
        {
            if b[j] < 48 || b[j] > 57 {
                assert(j < e0);
                assert(tok.len() == e0 - 15);
                assert(tok[j - 15] == b@[j as int]);
                assert(!is_dec_byte(tok[j - 15]));
                assert(!is_number(tok));
                return Some(String::from_str("no version gate: the first line is not 'LUCID-CAPTURE v<version>'"));
            }
            j = j + 1;
        }
        if e0 == 15 {
            assert(!is_number(version_token(b@)));
            return Some(String::from_str("no version gate: the first line is not 'LUCID-CAPTURE v<version>'"));
        }
        assert(is_number(version_token(b@))) by {
            assert forall|i: int| 0 <= i < version_token(b@).len() implies is_dec_byte(
                #[trigger] version_token(b@)[i],
            ) by {
                assert(version_token(b@)[i] == b@[i + 15]);
            }
        }
        let mut m = String::from_str("unsupported container version ");
        push_ascii_range(&mut m, b, 15, e0);
        m.append(" (this reader implements version 1)");
        return Some(m);
    }
    assert(version_token(b@) =~= lit("1"));
    let mut s: usize = e0 + 1;
    let mut k: usize = 1;
    assert(line_start(b@, 0) == 0);
    assert(line_start(b@, 1) == e0 + 1);
    while k < 10
        invariant
            1 <= k <= 10,
            s <= b@.len(),
            k < 10 ==> s as int == line_start(b@, k as nat),
            first_missing_from(b@, 1) == first_missing_from(b@, k as nat),
            has_gate(b@),
            version_token(b@) == lit("1"),
        decreases 10 - k,
    {
        if !check_key(b, s, k) {
            let mut m = String::from_str("missing required field: ");
            m.append(key_str(k));
            return Some(m);
        }
        proof {
            lemma_find_nl_bounds(b@, s as int);
        }
        let e = next_nl(b, s);
        assert(e < b.len());
        assert(k + 1 < 10 ==> line_start(b@, (k + 1) as nat) == e + 1);
        s = e + 1;
        k = k + 1;
    }
    None
}

} // verus!
