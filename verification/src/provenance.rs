//! Derived provenance: the tool revision, its dirty state, and the
//! dependency stack, as the build derived them. This is what makes every
//! capture evidence: a reader can name the exact tool and the exact composed
//! crates that produced it.
use vstd::prelude::*;

pub mod laws;

verus! {

/// The build-derived provenance of a binary.
#[derive(Debug, Clone)]
pub struct Provenance {
    /// The tool's own git revision at build (or `unknown`).
    pub tool_rev: String,
    /// `dirty` if the tree had uncommitted changes at build, else `clean`.
    pub dirty: String,
    /// Each composed dependency and its resolved git revision, or
    /// `LOCAL-PATH`, as `name@rev` pairs separated by commas.
    pub deps: String,
}

} // verus!

verus! {

/// `pat` occurs in `s`.
pub open spec fn contains_seq(s: Seq<char>, pat: Seq<char>) -> bool {
    exists|i: int| 0 <= i && i + pat.len() <= s.len() && #[trigger] s.subrange(i, i + pat.len()) == pat
}

/// The pieces of `s` between separators `sep`, as `str::split` gives them:
/// one more piece than there are separators.
pub open spec fn split_pieces(s: Seq<char>, sep: char) -> Seq<Seq<char>>
    decreases s.len(),
{
    if s.len() == 0 {
        seq![Seq::empty()]
    } else {
        let ps = split_pieces(s.drop_last(), sep);
        if s.last() == sep {
            ps.push(Seq::empty())
        } else {
            ps.update(ps.len() - 1, ps.last().push(s.last()))
        }
    }
}

/// The first index from `i` on where `c` stands in `p`.
pub open spec fn index_from(p: Seq<char>, c: char, i: int) -> Option<int>
    decreases p.len() - i,
{
    if i < 0 || i >= p.len() {
        None
    } else if p[i] == c {
        Some(i)
    } else {
        index_from(p, c, i + 1)
    }
}

/// `str::split_once`: the text before the first `c` and the text after it.
pub open spec fn split_once(p: Seq<char>, c: char) -> Option<(Seq<char>, Seq<char>)> {
    match index_from(p, c, 0) {
        Some(j) => Some((p.subrange(0, j), p.subrange(j + 1, p.len() as int))),
        None => None,
    }
}

/// The `name@rev` pairs among the pieces: each non-empty piece that holds
/// an `@`, split at its first.
pub open spec fn pairs_of(ps: Seq<Seq<char>>) -> Seq<(Seq<char>, Seq<char>)>
    decreases ps.len(),
{
    if ps.len() == 0 {
        Seq::empty()
    } else {
        let before = pairs_of(ps.drop_last());
        if ps.last().len() > 0 && split_once(ps.last(), '@') is Some {
            before.push(split_once(ps.last(), '@').unwrap())
        } else {
            before
        }
    }
}

/// The dependency pairs of a stack.
pub open spec fn dep_pairs_spec(deps: Seq<char>) -> Seq<(Seq<char>, Seq<char>)> {
    pairs_of(split_pieces(deps, ','))
}

/// The provenance lines for a render or a capture header.
pub open spec fn lines_text(p: Provenance) -> Seq<char> {
    "tool: lucid-host "@ + p.tool_rev@ + " ("@ + p.dirty@ + ")\ndeps: "@ + p.deps@
}

/// The banner that opens every device command: the provenance lines, and a
/// warning where a dependency resolved to a local path.
pub open spec fn banner_text(p: Provenance) -> Seq<char> {
    if contains_seq(p.deps@, "LOCAL-PATH"@) {
        lines_text(p) + local_path_warning()
    } else {
        lines_text(p)
    }
}

/// The warning line of a build with a dependency resolved to a local path.
pub open spec fn local_path_warning() -> Seq<char> {
    "\n  WARNING: a dependency resolved to a LOCAL-PATH \u{2014} this build is not reproducible"@
}

/// Whether `pat` occurs in `s`.
pub fn contains_chars(s: &Vec<char>, pat: &Vec<char>) -> (r: bool)
    ensures
        r == contains_seq(s@, pat@),
{
    if pat.len() > s.len() {
        return false;
    }
    let mut i: usize = 0;
    while i <= s.len() - pat.len()
        invariant
            pat@.len() <= s@.len(),
            i <= s@.len() - pat@.len() + 1,
            forall|k: int| 0 <= k < i ==> #[trigger] s@.subrange(k, k + pat@.len()) != pat@,
        decreases s.len() - pat.len() + 1 - i,
    {
        let mut j: usize = 0;
        let mut same = true;
        while j < pat.len()
            invariant
                j <= pat@.len(),
                i + pat@.len() <= s@.len(),
                s@.len() == s.len(),
                same == forall|k: int| 0 <= k < j ==> s@[i + k] == pat@[k],
            decreases pat.len() - j,
        {
            if s[i + j] != pat[j] {
                same = false;
            }
            j = j + 1;
        }
        if same {
            assert(s@.subrange(i as int, i + pat@.len()) =~= pat@);
            return true;
        }
        proof {
            let k = choose|k: int| 0 <= k < pat@.len() && s@[i + k] != pat@[k];
            assert(s@.subrange(i as int, i + pat@.len())[k] != pat@[k]);
        }
        i = i + 1;
    }
    proof {
        assert forall|k: int|
            0 <= k && k + pat@.len() <= s@.len() implies #[trigger] s@.subrange(k, k + pat@.len())
            != pat@ by {
            assert(k < i);
        }
    }
    false
}

impl Provenance {
    /// True if any composed dependency resolved to a local path rather than
    /// a pinned git revision: a capture built this way is not reproducible
    /// and must say so.
    pub fn has_local_path_dep(&self) -> (r: bool)
        ensures
            r == contains_seq(self.deps@, "LOCAL-PATH"@),
    {
        let s = crate::text::chars_of(self.deps.as_str());
        let pat = crate::text::chars_of("LOCAL-PATH");
        contains_chars(&s, &pat)
    }

    /// The provenance lines for a render or a capture header.
    pub fn lines(&self) -> (s: String)
        ensures
            s@ == lines_text(*self),
    {
        let mut s = String::from_str("tool: lucid-host ");
        s.append(self.tool_rev.as_str());
        s.append(" (");
        s.append(self.dirty.as_str());
        s.append(")\ndeps: ");
        s.append(self.deps.as_str());
        s
    }

    /// The banner that opens every device command.
    pub fn banner(&self) -> (s: String)
        ensures
            s@ == banner_text(*self),
    {
        let mut s = self.lines();
        if self.has_local_path_dep() {
            s.append("\n  WARNING: a dependency resolved to a LOCAL-PATH \u{2014} this build is not reproducible");
        }
        s
    }
}

} // verus!

verus! {

proof fn lemma_pairs_push(done: Seq<Seq<char>>, piece: Seq<char>)
    ensures
        pairs_of(done.push(piece)) == pairs_of(done) + pairs_of(seq![piece]),
{
    assert(done.push(piece).drop_last() =~= done);
    assert(seq![piece].drop_last() =~= Seq::<Seq<char>>::empty());
    assert(pairs_of(Seq::<Seq<char>>::empty()) =~= Seq::<(Seq<char>, Seq<char>)>::empty());
    if piece.len() > 0 && split_once(piece, '@') is Some {
        assert(pairs_of(done.push(piece)) =~= pairs_of(done) + pairs_of(seq![piece]));
    } else {
        assert(pairs_of(done.push(piece)) =~= pairs_of(done) + pairs_of(seq![piece]));
    }
}

/// The string of the characters `cs[from..to]`.
fn string_of(cs: &Vec<char>, from: usize, to: usize) -> (s: String)
    requires
        from <= to <= cs@.len(),
    ensures
        s@ == cs@.subrange(from as int, to as int),
{
    let mut s = String::new();
    let mut i = from;
    while i < to
        invariant
            from <= i <= to <= cs@.len(),
            s@ == cs@.subrange(from as int, i as int),
        decreases to - i,
    {
        crate::text::push_char(&mut s, cs[i]);
        assert(cs@.subrange(from as int, i + 1) =~= cs@.subrange(from as int, i as int).push(cs@[i as int]));
        i = i + 1;
    }
    s
}

pub open spec fn pair_view(p: (String, String)) -> (Seq<char>, Seq<char>) {
    (p.0@, p.1@)
}

/// Appends the pair of the piece `cs[start..end]`, if it has one.
fn push_pair(out: &mut Vec<(String, String)>, cs: &Vec<char>, start: usize, end: usize)
    requires
        start <= end <= cs@.len(),
    ensures
        final(out)@.map_values(|p: (String, String)| pair_view(p)) == old(out)@.map_values(
            |p: (String, String)| pair_view(p),
        ) + pairs_of(seq![cs@.subrange(start as int, end as int)]),
{
    let ghost piece = cs@.subrange(start as int, end as int);
    let ghost before = old(out)@.map_values(|p: (String, String)| pair_view(p));
    assert(seq![piece].drop_last() =~= Seq::<Seq<char>>::empty());
    assert(pairs_of(Seq::<Seq<char>>::empty()) =~= Seq::<(Seq<char>, Seq<char>)>::empty());
    if end == start {
        assert(out@.map_values(|p: (String, String)| pair_view(p)) =~= before + pairs_of(seq![piece]));
        return;
    }
    let mut j = start;
    while j < end && cs[j] != '@'
        invariant
            start <= j <= end <= cs@.len(),
            piece == cs@.subrange(start as int, end as int),
            index_from(piece, '@', 0) == index_from(piece, '@', j - start),
        decreases end - j,
    {
        assert(piece[j - start] == cs@[j as int]);
        j = j + 1;
    }
    if j == end {
        assert(out@.map_values(|p: (String, String)| pair_view(p)) =~= before + pairs_of(seq![piece]));
        return;
    }
    assert(piece[j - start] == cs@[j as int]);
    let name = string_of(cs, start, j);
    let rev = string_of(cs, j + 1, end);
    assert(name@ =~= piece.subrange(0, j - start));
    assert(rev@ =~= piece.subrange(j - start + 1, piece.len() as int));
    out.push((name, rev));
    assert(out@.map_values(|p: (String, String)| pair_view(p)) =~= before + pairs_of(seq![piece]));
}

impl Provenance {
    /// Each `name@rev` dependency pair, split out for a structured header:
    /// the comma-separated pieces that are not empty and hold an `@`, split
    /// at their first `@`.
    pub fn dep_pairs(&self) -> (r: Vec<(String, String)>)
        ensures
            r@.map_values(|p: (String, String)| pair_view(p)) == dep_pairs_spec(self.deps@),
    {
        let cs = crate::text::chars_of(self.deps.as_str());
        let mut out: Vec<(String, String)> = Vec::new();
        let mut start: usize = 0;
        let mut i: usize = 0;
        let ghost mut done: Seq<Seq<char>> = Seq::empty();
        assert(cs@.take(0) =~= Seq::<char>::empty());
        assert(cs@.subrange(0, 0) =~= Seq::<char>::empty());
        while i < cs.len()
            invariant
                start <= i <= cs@.len(),
                split_pieces(cs@.take(i as int), ',') == done.push(cs@.subrange(start as int, i as int)),
                out@.map_values(|p: (String, String)| pair_view(p)) == pairs_of(done),
            decreases cs.len() - i,
        {
            assert(cs@.take(i + 1).drop_last() =~= cs@.take(i as int));
            if cs[i] == ',' {
                let ghost piece = cs@.subrange(start as int, i as int);
                push_pair(&mut out, &cs, start, i);
                proof {
                    lemma_pairs_push(done, piece);
                    done = done.push(piece);
                    assert(cs@.subrange(i + 1, i + 1) =~= Seq::<char>::empty());
                }
                start = i + 1;
            } else {
                assert(cs@.subrange(start as int, i + 1) =~= cs@.subrange(start as int, i as int).push(
                    cs@[i as int],
                ));
            }
            i = i + 1;
        }
        let ghost piece = cs@.subrange(start as int, cs@.len() as int);
        push_pair(&mut out, &cs, start, cs.len());
        proof {
            assert(cs@.take(cs@.len() as int) =~= cs@);
            lemma_pairs_push(done, piece);
        }
        out
    }
}

} // verus!
