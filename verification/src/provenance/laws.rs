//! What holds of provenance text: the provenance lines read back as the
//! tool revision, the tree state and the dependency stack, the banner warns
//! exactly when a dependency resolved to a local path, and a stack written
//! as `name@rev` pairs joined by commas splits back into those pairs.
use vstd::prelude::*;
use crate::provenance::{
    Provenance, banner_text, contains_seq, dep_pairs_spec, index_from, lines_text,
    local_path_warning, pairs_of, split_once, split_pieces,
};

verus! {

/// The banner is the provenance lines, then the warning line exactly when a
/// dependency resolved to a local path.
pub proof fn lemma_banner_warns(p: Provenance)
    ensures
        banner_text(p).subrange(0, lines_text(p).len() as int) == lines_text(p),
        banner_text(p).len() > lines_text(p).len() <==> contains_seq(p.deps@, "LOCAL-PATH"@),
        contains_seq(p.deps@, "LOCAL-PATH"@) ==> banner_text(p).subrange(
            lines_text(p).len() as int,
            banner_text(p).len() as int,
        ) == local_path_warning(),
{
    reveal_strlit("\n  WARNING: a dependency resolved to a LOCAL-PATH \u{2014} this build is not reproducible");
    assert(local_path_warning().len() > 0);
    let l = lines_text(p);
    let w = local_path_warning();
    assert((l + w).subrange(0, l.len() as int) =~= l);
    assert((l + w).subrange(l.len() as int, (l + w).len() as int) =~= w);
    assert(l.subrange(0, l.len() as int) =~= l);
}

/// The words of the local-path warning.
pub open spec fn warning_words() -> Seq<char> {
    "WARNING: a dependency resolved to a LOCAL-PATH"@
}

/// The banner opens with the provenance lines, and holds the warning's
/// words exactly when a dependency resolved to a local path, for provenance
/// whose own lines do not hold those words.
pub proof fn lemma_banner_holds_warning(p: Provenance)
    requires
        !contains_seq(lines_text(p), warning_words()),
    ensures
        banner_text(p).subrange(0, lines_text(p).len() as int) == lines_text(p),
        contains_seq(banner_text(p), warning_words()) <==> contains_seq(p.deps@, "LOCAL-PATH"@),
{
    lemma_banner_warns(p);
    reveal_strlit("\n  WARNING: a dependency resolved to a LOCAL-PATH \u{2014} this build is not reproducible");
    reveal_strlit("WARNING: a dependency resolved to a LOCAL-PATH");
    let l = lines_text(p);
    let w = local_path_warning();
    let ww = warning_words();
    if contains_seq(p.deps@, "LOCAL-PATH"@) {
        let b = banner_text(p);
        let i = (l.len() + 3) as int;
        assert(b == l + w);
        assert(b.subrange(i, (i + ww.len()) as int) =~= ww) by {
            assert forall|k: int| 0 <= k < ww.len() implies b.subrange(i, (i + ww.len()) as int)[k]
                == ww[k] by {
                assert(b[i + k] == w[k + 3]);
            }
        }
    }
}

/// `c` does not stand in `s`.
pub open spec fn lacks(s: Seq<char>, c: char) -> bool {
    forall|i: int| 0 <= i < s.len() ==> #[trigger] s[i] != c
}

/// A dependency pair as the stack writes it: `name@rev`.
pub open spec fn pair_text(p: (Seq<char>, Seq<char>)) -> Seq<char> {
    p.0 + seq!['@'] + p.1
}

/// Pieces joined by commas.
pub open spec fn comma_joined(ps: Seq<Seq<char>>) -> Seq<char>
    decreases ps.len(),
{
    if ps.len() == 0 {
        Seq::empty()
    } else if ps.len() == 1 {
        ps[0]
    } else {
        comma_joined(ps.drop_last()) + seq![','] + ps.last()
    }
}

/// A dependency stack written from its pairs.
pub open spec fn stack_text(ps: Seq<(Seq<char>, Seq<char>)>) -> Seq<char> {
    comma_joined(ps.map_values(|p: (Seq<char>, Seq<char>)| pair_text(p)))
}

proof fn lemma_split_extend(a: Seq<char>, b: Seq<char>, sep: char)
    requires
        lacks(b, sep),
    ensures
        split_pieces(a + b, sep) == split_pieces(a, sep).update(
            split_pieces(a, sep).len() - 1,
            split_pieces(a, sep).last() + b,
        ),
        split_pieces(a + b, sep).len() == split_pieces(a, sep).len(),
    decreases b.len(),
{
    lemma_split_nonempty(a, sep);
    if b.len() == 0 {
        assert(a + b =~= a);
        assert(split_pieces(a, sep).last() + b =~= split_pieces(a, sep).last());
        assert(split_pieces(a, sep).update(
            split_pieces(a, sep).len() - 1,
            split_pieces(a, sep).last(),
        ) =~= split_pieces(a, sep));
    } else {
        let b0 = b.drop_last();
        assert(lacks(b0, sep));
        lemma_split_extend(a, b0, sep);
        assert((a + b).drop_last() =~= a + b0);
        assert((a + b).last() == b.last());
        let ps = split_pieces(a, sep);
        let qs = split_pieces(a + b0, sep);
        assert(qs.last() == ps.last() + b0);
        assert(qs.last().push(b.last()) =~= ps.last() + b);
        assert(qs.update(qs.len() - 1, qs.last().push(b.last())) =~= ps.update(
            ps.len() - 1,
            ps.last() + b,
        ));
    }
}

proof fn lemma_split_nonempty(a: Seq<char>, sep: char)
    ensures
        split_pieces(a, sep).len() >= 1,
    decreases a.len(),
{
    if a.len() > 0 {
        lemma_split_nonempty(a.drop_last(), sep);
    }
}

/// Pieces without the separator, joined by it, split back into themselves.
proof fn lemma_split_joined(ps: Seq<Seq<char>>)
    requires
        ps.len() >= 1,
        forall|i: int| 0 <= i < ps.len() ==> lacks(#[trigger] ps[i], ','),
    ensures
        split_pieces(comma_joined(ps), ',') == ps,
    decreases ps.len(),
{
    if ps.len() == 1 {
        assert(split_pieces(Seq::<char>::empty(), ',') =~= seq![Seq::<char>::empty()]);
        lemma_split_extend(Seq::<char>::empty(), ps[0], ',');
        assert(Seq::<char>::empty() + ps[0] =~= ps[0]);
        assert(seq![Seq::<char>::empty()].update(0, Seq::<char>::empty() + ps[0]) =~= ps);
    } else {
        let init = ps.drop_last();
        assert forall|i: int| 0 <= i < init.len() implies lacks(#[trigger] init[i], ',') by {
            assert(init[i] == ps[i]);
        }
        lemma_split_joined(init);
        let a = comma_joined(init) + seq![','];
        assert(a.drop_last() =~= comma_joined(init));
        assert(split_pieces(a, ',') == init.push(Seq::empty()));
        assert(lacks(ps.last(), ','));
        lemma_split_extend(a, ps.last(), ',');
        assert(init.push(Seq::empty()).update(init.len() as int, Seq::<char>::empty() + ps.last())
            =~= ps);
    }
}

proof fn lemma_index_from_walk(p: Seq<char>, c: char, i: int, j: int)
    requires
        0 <= i <= j < p.len(),
        p[j] == c,
        forall|k: int| i <= k < j ==> p[k] != c,
    ensures
        index_from(p, c, i) == Some(j),
    decreases j - i,
{
    if i < j {
        lemma_index_from_walk(p, c, i + 1, j);
    }
}

/// The pair of each written pair, one for one.
proof fn lemma_pairs_of_written(ps: Seq<(Seq<char>, Seq<char>)>)
    requires
        forall|i: int| 0 <= i < ps.len() ==> lacks((#[trigger] ps[i]).0, '@'),
    ensures
        pairs_of(ps.map_values(|p: (Seq<char>, Seq<char>)| pair_text(p))) == ps,
    decreases ps.len(),
{
    let pieces = ps.map_values(|p: (Seq<char>, Seq<char>)| pair_text(p));
    if ps.len() > 0 {
        let init = ps.drop_last();
        assert forall|i: int| 0 <= i < init.len() implies lacks((#[trigger] init[i]).0, '@') by {
            assert(init[i] == ps[i]);
        }
        lemma_pairs_of_written(init);
        assert(pieces.drop_last() =~= init.map_values(|p: (Seq<char>, Seq<char>)| pair_text(p)));
        let (n, r) = ps.last();
        let t = pair_text(ps.last());
        assert(pieces.last() == t);
        assert(t[n.len() as int] == '@');
        assert forall|k: int| 0 <= k < n.len() implies t[k] != '@' by {
            assert(t[k] == n[k]);
        }
        lemma_index_from_walk(t, '@', 0, n.len() as int);
        assert(t.subrange(0, n.len() as int) =~= n);
        assert(t.subrange((n.len() + 1) as int, t.len() as int) =~= r);
        assert(split_once(t, '@') == Some((n, r)));
        assert(init.push(ps.last()) =~= ps);
    } else {
        assert(pieces =~= Seq::<Seq<char>>::empty());
    }
}

/// A stack written as `name@rev` pairs joined by commas, no name or
/// revision holding a comma and no name an `@`, splits back into exactly
/// those pairs, in order.
pub proof fn lemma_dep_pairs_split_back(ps: Seq<(Seq<char>, Seq<char>)>)
    requires
        forall|i: int|
            0 <= i < ps.len() ==> lacks((#[trigger] ps[i]).0, ',') && lacks(ps[i].1, ',') && lacks(
                ps[i].0,
                '@',
            ),
    ensures
        dep_pairs_spec(stack_text(ps)) == ps,
{
    let pieces = ps.map_values(|p: (Seq<char>, Seq<char>)| pair_text(p));
    if ps.len() == 0 {
        assert(stack_text(ps) =~= Seq::<char>::empty());
        assert(split_pieces(Seq::<char>::empty(), ',') =~= seq![Seq::<char>::empty()]);
        assert(seq![Seq::<char>::empty()].drop_last() =~= Seq::<Seq<char>>::empty());
        assert(ps =~= Seq::<(Seq<char>, Seq<char>)>::empty());
        let one = seq![Seq::<char>::empty()];
        assert(one.last().len() == 0);
        assert(pairs_of(one.drop_last()) =~= Seq::<(Seq<char>, Seq<char>)>::empty());
        assert(pairs_of(one) == pairs_of(one.drop_last()));
    } else {
        assert forall|i: int| 0 <= i < pieces.len() implies lacks(#[trigger] pieces[i], ',') by {
            let t = pieces[i];
            assert(t == pair_text(ps[i]));
            assert forall|k: int| 0 <= k < t.len() implies t[k] != ',' by {
                if k < ps[i].0.len() {
                    assert(t[k] == ps[i].0[k]);
                } else if k > ps[i].0.len() {
                    assert(t[k] == ps[i].1[k - ps[i].0.len() - 1]);
                }
            }
        }
        lemma_split_joined(pieces);
        assert forall|i: int| 0 <= i < ps.len() implies lacks((#[trigger] ps[i]).0, '@') by {}
        lemma_pairs_of_written(ps);
        assert(stack_text(ps) == comma_joined(pieces));
        assert(dep_pairs_spec(stack_text(ps)) == pairs_of(split_pieces(comma_joined(pieces), ',')));
    }
}

/// Where the run of characters other than `stop` that starts at `pos`
/// ends.
pub open spec fn char_run_end(t: Seq<char>, pos: int, stop: char) -> int
    decreases t.len() - pos,
{
    if 0 <= pos < t.len() && t[pos] != stop {
        char_run_end(t, pos + 1, stop)
    } else {
        pos
    }
}

/// `s` stands in `t` at `pos`.
pub open spec fn chars_at(t: Seq<char>, pos: int, s: Seq<char>) -> bool {
    0 <= pos && pos + s.len() <= t.len() && t.subrange(pos, pos + s.len()) == s
}

/// Reads the provenance lines: the tool revision after `tool: lucid-host `
/// up to a space, the tree state between parentheses, and the dependency
/// stack after `deps: ` to the end.
pub open spec fn provenance_reading(t: Seq<char>) -> Option<(Seq<char>, Seq<char>, Seq<char>)> {
    let h = "tool: lucid-host "@;
    if !chars_at(t, 0, h) {
        None
    } else {
        let e1 = char_run_end(t, h.len() as int, ' ');
        if !chars_at(t, e1, " ("@) {
            None
        } else {
            let p2 = e1 + 2;
            let e2 = char_run_end(t, p2, ')');
            if !chars_at(t, e2, ")\ndeps: "@) {
                None
            } else {
                Some((t.subrange(h.len() as int, e1), t.subrange(p2, e2), t.subrange(e2 + 8, t.len() as int)))
            }
        }
    }
}

proof fn lemma_char_run_end(t: Seq<char>, pos: int, len: int, stop: char)
    requires
        0 <= pos,
        0 <= len,
        pos + len < t.len(),
        forall|i: int| pos <= i < pos + len ==> #[trigger] t[i] != stop,
        t[pos + len] == stop,
    ensures
        char_run_end(t, pos, stop) == pos + len,
    decreases len,
{
    if len > 0 {
        lemma_char_run_end(t, pos + 1, len - 1, stop);
    }
}

/// The provenance lines read back as the provenance they were made from:
/// the tool revision, then the tree state, then the dependency stack, for
/// a revision without a space and a tree state without a closing
/// parenthesis.
#[verifier::spinoff_prover]
#[verifier::rlimit(50)]
pub proof fn lemma_lines_read_back(p: Provenance)
    requires
        forall|i: int| 0 <= i < p.tool_rev@.len() ==> #[trigger] p.tool_rev@[i] != ' ',
        forall|i: int| 0 <= i < p.dirty@.len() ==> #[trigger] p.dirty@[i] != ')',
    ensures
        provenance_reading(lines_text(p)) == Some((p.tool_rev@, p.dirty@, p.deps@)),
{
    reveal_strlit("tool: lucid-host ");
    reveal_strlit(" (");
    reveal_strlit(")\ndeps: ");
    let t = lines_text(p);
    let h = "tool: lucid-host "@;
    let r = p.tool_rev@;
    let d = p.dirty@;
    let k = p.deps@;
    let s1 = " ("@;
    let s2 = ")\ndeps: "@;
    assert(t =~= h + r + s1 + d + s2 + k);
    let a = h.len() as int;
    let e1 = a + r.len();
    let e2 = e1 + 2 + d.len();
    assert(t.subrange(0, a) =~= h);
    assert forall|i: int| a <= i < e1 implies #[trigger] t[i] != ' ' by {
        assert(t[i] == r[i - a]);
    }
    assert(t[e1] == ' ');
    lemma_char_run_end(t, a, r.len() as int, ' ');
    assert(t.subrange(e1, e1 + 2) =~= s1);
    assert forall|i: int| e1 + 2 <= i < e2 implies #[trigger] t[i] != ')' by {
        assert(t[i] == d[i - e1 - 2]);
    }
    assert(t[e2] == ')');
    lemma_char_run_end(t, e1 + 2, d.len() as int, ')');
    assert(t.subrange(e2, e2 + 8) =~= s2);
    assert(t.subrange(a, e1) =~= r);
    assert(t.subrange(e1 + 2, e2) =~= d);
    assert(t.subrange(e2 + 8, t.len() as int) =~= k);
}

} // verus!
