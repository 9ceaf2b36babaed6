//! Where the container's lines lie: the bytes of newline-free lines joined
//! by newlines, followed by anything, have their lines exactly where the
//! joining put them.
use vstd::prelude::*;
use crate::capture::gate::{find_nl, line_has_key_at, line_start, lemma_find_nl_bounds};
use crate::capture::write::{joined, lemma_joined_push, nl};

verus! {

/// No byte of `s` is a newline.
pub open spec fn no_newline(s: Seq<u8>) -> bool {
    forall|i: int| 0 <= i < s.len() ==> #[trigger] s[i] != 10
}

/// `l` opens with `key`, followed by a space or by the end of `l`.
pub open spec fn opens_with(l: Seq<u8>, key: Seq<u8>) -> bool {
    &&& key.len() <= l.len()
    &&& l.subrange(0, key.len() as int) == key
    &&& (key.len() == l.len() || l[key.len() as int] == 32)
}

pub proof fn lemma_joined_concat(a: Seq<Seq<u8>>, c: Seq<Seq<u8>>)
    ensures
        joined(a + c) == joined(a) + joined(c),
    decreases c.len(),
{
    if c.len() == 0 {
        assert(a + c =~= a);
        assert(joined(c) =~= Seq::<u8>::empty()) by {
            assert(c.map_values(|x: Seq<u8>| x + nl()) =~= Seq::<Seq<u8>>::empty());
        }
        assert(joined(a) + joined(c) =~= joined(a));
    } else {
        let c0 = c.drop_last();
        lemma_joined_concat(a, c0);
        assert(a + c =~= (a + c0).push(c.last()));
        assert(c =~= c0.push(c.last()));
        lemma_joined_push(a + c0, c.last());
        lemma_joined_push(c0, c.last());
        assert(joined(a) + joined(c) =~= joined(a) + joined(c0) + c.last() + nl());
    }
}

/// The lines split at `j`: those before, line `j` with its newline, and
/// those after.
pub proof fn lemma_joined_split(ls: Seq<Seq<u8>>, j: int)
    requires
        0 <= j < ls.len(),
    ensures
        joined(ls) == joined(ls.take(j)) + ls[j] + nl() + joined(ls.skip(j + 1)),
        joined(ls.take(j + 1)) == joined(ls.take(j)) + ls[j] + nl(),
{
    assert(ls =~= ls.take(j + 1) + ls.skip(j + 1));
    lemma_joined_concat(ls.take(j + 1), ls.skip(j + 1));
    assert(ls.take(j + 1) =~= ls.take(j).push(ls[j]));
    lemma_joined_push(ls.take(j), ls[j]);
}

pub proof fn lemma_find_nl_walk(b: Seq<u8>, p: int, e: int)
    requires
        0 <= p <= e < b.len(),
        b[e] == 10,
        forall|i: int| p <= i < e ==> b[i] != 10,
    ensures
        find_nl(b, p) == e,
    decreases e - p,
{
    if p < e {
        lemma_find_nl_walk(b, p + 1, e);
    }
}

/// Line `j` of newline-free lines joined, then anything, starts where the
/// lines before it end, and ends where its own bytes end.
pub proof fn lemma_line_at(ls: Seq<Seq<u8>>, rest: Seq<u8>, j: nat)
    requires
        j <= ls.len(),
        forall|i: int| 0 <= i < ls.len() ==> no_newline(#[trigger] ls[i]),
    ensures
        line_start(joined(ls) + rest, j) == joined(ls.take(j as int)).len(),
        j < ls.len() ==> find_nl(joined(ls) + rest, joined(ls.take(j as int)).len() as int)
            == joined(ls.take(j as int)).len() + ls[j as int].len(),
        j < ls.len() ==> (joined(ls) + rest).subrange(
            joined(ls.take(j as int)).len() as int,
            (joined(ls.take(j as int)).len() + ls[j as int].len()) as int,
        ) == ls[j as int],
    decreases j,
{
    let b = joined(ls) + rest;
    if j > 0 {
        lemma_line_at(ls, rest, (j - 1) as nat);
        lemma_joined_split(ls, j - 1);
    } else {
        assert(ls.take(0) =~= Seq::<Seq<u8>>::empty());
        assert(joined(ls.take(0)) =~= Seq::<u8>::empty()) by {
            assert(ls.take(0).map_values(|x: Seq<u8>| x + nl()) =~= Seq::<Seq<u8>>::empty());
        }
    }
    if j < ls.len() {
        lemma_joined_split(ls, j as int);
        let s = joined(ls.take(j as int)).len() as int;
        let l = ls[j as int];
        assert(b =~= joined(ls.take(j as int)) + l + nl() + (joined(ls.skip((j + 1) as int)) + rest));
        assert forall|i: int| s <= i < s + l.len() implies b[i] != 10 by {
            assert(b[i] == l[i - s]);
        }
        assert(b[s + l.len()] == 10);
        lemma_find_nl_walk(b, s, s + l.len());
        assert(b.subrange(s, s + l.len()) =~= l);
    }
}

/// Line `j` of newline-free lines joined, then anything, opens with `key`
/// exactly when the line itself does.
pub proof fn lemma_line_key(ls: Seq<Seq<u8>>, rest: Seq<u8>, j: nat, key: Seq<u8>)
    requires
        j < ls.len(),
        forall|i: int| 0 <= i < ls.len() ==> no_newline(#[trigger] ls[i]),
    ensures
        line_has_key_at(joined(ls) + rest, line_start(joined(ls) + rest, j), key) <==> opens_with(
            ls[j as int],
            key,
        ),
{
    let b = joined(ls) + rest;
    lemma_line_at(ls, rest, j);
    lemma_joined_split(ls, j as int);
    let s = joined(ls.take(j as int)).len() as int;
    let l = ls[j as int];
    assert(b =~= joined(ls.take(j as int)) + l + nl() + (joined(ls.skip((j + 1) as int)) + rest));
    if opens_with(l, key) {
        assert(b.subrange(s, s + key.len()) =~= l.subrange(0, key.len() as int));
        if key.len() < l.len() {
            assert(b[s + key.len()] == l[key.len() as int]);
        }
    }
    if line_has_key_at(b, s, key) {
        assert(l.subrange(0, key.len() as int) =~= b.subrange(s, s + key.len()));
        if key.len() < l.len() {
            assert(b[s + key.len()] == l[key.len() as int]);
        }
    }
}

} // verus!
