//! The decisions of the attach and drain flow; the transport work itself is
//! done by the caller.
use vstd::prelude::*;

verus! {

/// The words a VDR shift carries, where a region says 0 (read as 1).
pub open spec fn shift_words(words_per_vdr: u16) -> nat {
    if words_per_vdr == 0 {
        1
    } else {
        words_per_vdr as nat
    }
}

/// How many VDR shifts drain a region of `word_count` words, `words_per_vdr`
/// to a shift: the count rounded up, so that a region whose size is not a
/// multiple of a shift still drains every word, and no shift more than that.
pub fn vdrs_to_drain(word_count: u32, words_per_vdr: u16) -> (n: u32)
    ensures
        n * shift_words(words_per_vdr) >= word_count,
        n == 0 || (n - 1) * shift_words(words_per_vdr) < word_count,
        n as int == (word_count as int + shift_words(words_per_vdr) - 1) / (shift_words(
            words_per_vdr,
        ) as int),
{
    let wpv: u32 = if words_per_vdr == 0 { 1 } else { words_per_vdr as u32 };
    let q = word_count / wpv;
    assert(word_count % wpv != 0 ==> q < 0xFFFF_FFFF) by (nonlinear_arith)
        requires
            wpv >= 1,
            q == word_count / wpv,
            word_count <= 0xFFFF_FFFF,
    {
        if word_count % wpv != 0 {
            assert(wpv != 1);
        }
    }
    let n = if word_count % wpv == 0 { q } else { q + 1 };
    proof {
        let w = wpv as int;
        let c = word_count as int;
        assert(c == (c / w) * w + c % w) by (nonlinear_arith)
            requires
                w > 0,
        ;
        assert(0 <= c % w < w) by (nonlinear_arith)
            requires
                w > 0,
        ;
        assert((c + w - 1) / w == if c % w == 0 { c / w } else { c / w + 1 }) by (nonlinear_arith)
            requires
                w > 0,
                c >= 0,
                c == (c / w) * w + c % w,
                0 <= c % w < w,
        ;
        assert(n * w >= c && (n == 0 || (n - 1) * w < c)) by (nonlinear_arith)
            requires
                w > 0,
                c >= 0,
                c == (c / w) * w + c % w,
                0 <= c % w < w,
                n == if c % w == 0 { c / w } else { c / w + 1 },
        ;
    }
    n
}

} // verus!

verus! {

/// The region's words out of what its shifts drained: the first
/// `word_count`, the rest of the last shift dropped.
pub fn region_words(drained: Vec<u32>, word_count: u32) -> (w: Vec<u32>)
    ensures
        w@ == drained@.take(
            if (word_count as int) < drained@.len() { word_count as int } else { drained@.len() as int },
        ),
{
    let mut w = drained;
    w.truncate(word_count as usize);
    proof {
        if (word_count as int) >= w@.len() {
            assert(drained@.take(drained@.len() as int) =~= drained@);
        }
    }
    w
}

} // verus!
